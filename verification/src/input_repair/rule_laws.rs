//! Which readings repair offers, rule by rule: those that undo a slip, and no others.

use super::kana;
use super::variants;
use super::variants::{RepairKind, Slip, VariantView};
use crate::preferences::InputSupport;
use crate::strings;
use vstd::prelude::*;

verus! {

// ---------------------------------------------------------------------------
// The rules, in terms of what was typed.

/// The syllable n was typed twice: one of the two is taken out.
pub open spec fn doubled_n(support: InputSupport, typed: Seq<char>, i: int, r: Seq<char>) -> bool {
    &&& support.n_count
    &&& 0 <= i && i + 1 < typed.len()
    &&& typed[i] == 'ん' && typed[i + 1] == 'ん'
    &&& r == typed.remove(i)
}

/// The syllable n was left out before a consonant: it is put in.
pub open spec fn missing_n(support: InputSupport, typed: Seq<char>, i: int, r: Seq<char>) -> bool {
    &&& support.n_count
    &&& 0 < i < typed.len()
    &&& typed[i - 1] != 'ん'
    &&& 'ぁ' <= typed[i] && typed[i] <= 'ゖ'
    &&& !"あいうえおんっ"@.contains(typed[i])
    &&& r == typed.insert(i, 'ん')
}

/// A small tsu too much: it is taken out.
pub open spec fn extra_tsu(support: InputSupport, typed: Seq<char>, i: int, r: Seq<char>) -> bool {
    &&& support.consonant_extra
    &&& 0 <= i < typed.len()
    &&& typed[i] == 'っ'
    &&& r == typed.remove(i)
}

/// A vowel was typed twice: one of the two is taken out.
pub open spec fn doubled_vowel(support: InputSupport, typed: Seq<char>, i: int, r: Seq<char>) -> bool {
    &&& support.vowel_count
    &&& 0 <= i && i + 1 < typed.len()
    &&& typed[i] == typed[i + 1]
    &&& "あいうえおー"@.contains(typed[i])
    &&& r == typed.remove(i)
}

/// Whether a vowel lengthens the syllable of a letter: a syllable in a is lengthened by
/// あ, one in i or e by い, and one in u or o by う.
pub open spec fn lengthens(vowel: char, c: char) -> bool {
    ||| vowel == 'あ' && "あかさたなはまやらわがざだばぱ"@.contains(c)
    ||| vowel == 'い' && "いきしちにひみりぎじぢびぴえけせてねへめれげぜでべぺ"@.contains(c)
    ||| vowel == 'う' && "うくすつぬふむゆるぐずづぶぷおこそとのほもよろをごぞどぼぽ"@.contains(c)
}

/// The vowel that lengthens a syllable was left out: it is put in behind the syllable.
pub open spec fn missing_vowel(support: InputSupport, typed: Seq<char>, i: int, r: Seq<char>) -> bool {
    &&& support.vowel_count
    &&& 0 <= i < typed.len()
    &&& exists|vowel: char|
        #[trigger] lengthens(vowel, typed[i]) && !(i + 1 < typed.len() && typed[i + 1] == vowel)
            && r == typed.insert(i + 1, vowel)
}

/// Whether two letters differ only by a mark for voicing. In the syllabary the voiced
/// letter follows the plain one, and in the row of は the half-voiced one follows that.
pub open spec fn other_voicing(c: char, d: char) -> bool {
    ||| "かきくけこさしすせそたちつてとはひふへほ"@.contains(c) && d as int == c as int + 1
    ||| "がぎぐげござじずぜぞだぢづでど"@.contains(c) && d as int == c as int - 1
    ||| "ばびぶべぼ"@.contains(c) && d as int == c as int + 1
    ||| "ぱぴぷぺぽ"@.contains(c) && d as int == c as int - 1
}

/// A letter was mistaken for one that looks like it.
pub open spec fn lookalike(support: InputSupport, typed: Seq<char>, i: int, r: Seq<char>) -> bool {
    &&& 0 <= i < typed.len()
    &&& exists|d: char| #[trigger]
        mistaken(support, typed[i], d) && r == typed.update(i, d)
}

/// Whether a letter that looks like another may be meant.
pub open spec fn mistaken(support: InputSupport, c: char, d: char) -> bool {
    ||| support.dakuten_swap && other_voicing(c, d)
    ||| support.tsu_sokuon && c == 'つ' && d == 'っ'
    ||| support.wa_wo && c == 'わ' && d == 'を'
    ||| support.small_u && c == 'ぅ' && d == 'う'
}

/// Whether two letters sound alike in names.
pub open spec fn sounds_like(c: char, d: char) -> bool {
    ||| c == 'お' && d == 'う'
    ||| c == 'う' && d == 'お'
    ||| c == 'ず' && d == 'づ'
    ||| c == 'づ' && d == 'ず'
    ||| c == 'じ' && d == 'ぢ'
    ||| c == 'ぢ' && d == 'じ'
}

/// A letter was mistaken for one that sounds like it in names.
pub open spec fn soundalike(support: InputSupport, typed: Seq<char>, i: int, r: Seq<char>) -> bool {
    &&& support.fuzzy_proper_nouns
    &&& 0 <= i < typed.len()
    &&& exists|d: char| #[trigger] sounds_like(typed[i], d) && r == typed.update(i, d)
}

/// A mark in a short reading is taken out.
pub open spec fn any_mark(typed: Seq<char>, i: int, r: Seq<char>) -> bool {
    &&& typed.len() <= 6
    &&& 0 <= i < typed.len()
    &&& "んっーぁぃぅぇぉゃゅょァィゥェォャュョッ"@.contains(typed[i])
    &&& r == typed.remove(i)
}

/// Whether a character is kana.
pub open spec fn is_kana(c: char) -> bool {
    ('ぁ' <= c && c <= 'ゖ') || ('ァ' <= c && c <= 'ヶ')
}

/// A letter of a short reading is replaced by a vowel or a mark.
pub open spec fn any_letter(typed: Seq<char>, i: int, r: Seq<char>) -> bool {
    &&& typed.len() <= 6
    &&& 0 <= i < typed.len()
    &&& is_kana(typed[i])
    &&& exists|k: int|
        0 <= k < 8 && r == typed.update(i, #[trigger] "あいうえおんっー"@[k])
            && "あいうえおんっー"@[k] != typed[i]
}

/// Whether a rule makes a reading out of what was typed, at some place.
pub open spec fn by_rule(support: InputSupport, typed: Seq<char>, r: Seq<char>) -> bool {
    exists|i: int| #[trigger] by_rule_at(support, typed, i, r)
}

/// Whether a rule makes a reading out of what was typed, at a place.
pub open spec fn by_rule_at(support: InputSupport, typed: Seq<char>, i: int, r: Seq<char>) -> bool {
    ||| doubled_n(support, typed, i, r)
    ||| missing_n(support, typed, i, r)
    ||| extra_tsu(support, typed, i, r)
    ||| doubled_vowel(support, typed, i, r)
    ||| missing_vowel(support, typed, i, r)
    ||| lookalike(support, typed, i, r)
    ||| soundalike(support, typed, i, r)
}

/// Whether the broad pass makes a reading out of what was typed.
pub open spec fn by_broad_pass(support: InputSupport, typed: Seq<char>, r: Seq<char>) -> bool {
    support.advanced && exists|i: int| #[trigger] by_broad_pass_at(typed, i, r)
}

/// Whether the broad pass makes a reading out of what was typed, at a place.
pub open spec fn by_broad_pass_at(typed: Seq<char>, i: int, r: Seq<char>) -> bool {
    any_mark(typed, i, r) || any_letter(typed, i, r)
}

/// Whether a reading can be repaired at all: it holds kana and no digit.
pub open spec fn can_be_repaired(support: InputSupport, typed: Seq<char>) -> bool {
    &&& support.enabled
    &&& exists|i: int| 0 <= i < typed.len() && is_kana(#[trigger] typed[i])
    &&& forall|i: int|
        0 <= i < typed.len() ==> !('0' <= #[trigger] typed[i] && typed[i] <= '9') && !('０'
            <= typed[i] && typed[i] <= '９')
}

/// Whether a reading can be held in a list.
pub open spec fn can_be_held(typed: Seq<char>, r: Seq<char>) -> bool {
    r.len() > 0 && r != typed && strings::utf8_len(r) <= 512 && strings::utf8_len(typed) <= 65535
}

// ---------------------------------------------------------------------------
// What is offered at one place.

/// The letters of a list, one by one.
proof fn lemma_vowels(c: char)
    ensures
        "あいうえおー"@.contains(c) == (c == 'あ' || c == 'い' || c == 'う' || c == 'え' || c == 'お' || c == 'ー'),
{
    reveal_strlit("あいうえおー");
    let s = "あいうえおー"@;
    assert(s[0] == 'あ' && s[1] == 'い' && s[2] == 'う' && s[3] == 'え' && s[4] == 'お' && s[5] == 'ー');
}

/// The letters of a list, one by one.
proof fn lemma_no_consonants(c: char)
    ensures
        "あいうえおんっ"@.contains(c) == (c == 'あ' || c == 'い' || c == 'う' || c == 'え' || c == 'お' || c == 'ん' || c == 'っ'),
{
    reveal_strlit("あいうえおんっ");
    let s = "あいうえおんっ"@;
    assert(s[0] == 'あ' && s[1] == 'い' && s[2] == 'う' && s[3] == 'え' && s[4] == 'お' && s[5] == 'ん' && s[6] == 'っ');
}

/// The letters of a list, one by one.
proof fn lemma_a(c: char)
    ensures
        "あかさたなはまやらわがざだばぱ"@.contains(c) == (c == 'あ' || c == 'か' || c == 'さ' || c == 'た' || c == 'な' || c == 'は' || c == 'ま' || c == 'や' || c == 'ら' || c == 'わ' || c == 'が' || c == 'ざ' || c == 'だ' || c == 'ば' || c == 'ぱ'),
{
    reveal_strlit("あかさたなはまやらわがざだばぱ");
    let s = "あかさたなはまやらわがざだばぱ"@;
    assert(s[0] == 'あ' && s[1] == 'か' && s[2] == 'さ' && s[3] == 'た' && s[4] == 'な' && s[5] == 'は' && s[6] == 'ま' && s[7] == 'や' && s[8] == 'ら' && s[9] == 'わ' && s[10] == 'が' && s[11] == 'ざ' && s[12] == 'だ' && s[13] == 'ば' && s[14] == 'ぱ');
}

/// The letters of a list, one by one.
proof fn lemma_i(c: char)
    ensures
        "いきしちにひみりぎじぢびぴえけせてねへめれげぜでべぺ"@.contains(c) == (c == 'い' || c == 'き' || c == 'し' || c == 'ち' || c == 'に' || c == 'ひ' || c == 'み' || c == 'り' || c == 'ぎ' || c == 'じ' || c == 'ぢ' || c == 'び' || c == 'ぴ' || c == 'え' || c == 'け' || c == 'せ' || c == 'て' || c == 'ね' || c == 'へ' || c == 'め' || c == 'れ' || c == 'げ' || c == 'ぜ' || c == 'で' || c == 'べ' || c == 'ぺ'),
{
    reveal_strlit("いきしちにひみりぎじぢびぴえけせてねへめれげぜでべぺ");
    let s = "いきしちにひみりぎじぢびぴえけせてねへめれげぜでべぺ"@;
    assert(s[0] == 'い' && s[1] == 'き' && s[2] == 'し' && s[3] == 'ち' && s[4] == 'に' && s[5] == 'ひ' && s[6] == 'み' && s[7] == 'り' && s[8] == 'ぎ' && s[9] == 'じ' && s[10] == 'ぢ' && s[11] == 'び' && s[12] == 'ぴ' && s[13] == 'え' && s[14] == 'け' && s[15] == 'せ' && s[16] == 'て' && s[17] == 'ね' && s[18] == 'へ' && s[19] == 'め' && s[20] == 'れ' && s[21] == 'げ' && s[22] == 'ぜ' && s[23] == 'で' && s[24] == 'べ' && s[25] == 'ぺ');
}

/// The letters of a list, one by one.
proof fn lemma_u(c: char)
    ensures
        "うくすつぬふむゆるぐずづぶぷおこそとのほもよろをごぞどぼぽ"@.contains(c) == (c == 'う' || c == 'く' || c == 'す' || c == 'つ' || c == 'ぬ' || c == 'ふ' || c == 'む' || c == 'ゆ' || c == 'る' || c == 'ぐ' || c == 'ず' || c == 'づ' || c == 'ぶ' || c == 'ぷ' || c == 'お' || c == 'こ' || c == 'そ' || c == 'と' || c == 'の' || c == 'ほ' || c == 'も' || c == 'よ' || c == 'ろ' || c == 'を' || c == 'ご' || c == 'ぞ' || c == 'ど' || c == 'ぼ' || c == 'ぽ'),
{
    reveal_strlit("うくすつぬふむゆるぐずづぶぷおこそとのほもよろをごぞどぼぽ");
    let s = "うくすつぬふむゆるぐずづぶぷおこそとのほもよろをごぞどぼぽ"@;
    assert(s[0] == 'う' && s[1] == 'く' && s[2] == 'す' && s[3] == 'つ' && s[4] == 'ぬ' && s[5] == 'ふ' && s[6] == 'む' && s[7] == 'ゆ' && s[8] == 'る' && s[9] == 'ぐ' && s[10] == 'ず' && s[11] == 'づ' && s[12] == 'ぶ' && s[13] == 'ぷ' && s[14] == 'お' && s[15] == 'こ' && s[16] == 'そ' && s[17] == 'と' && s[18] == 'の' && s[19] == 'ほ' && s[20] == 'も' && s[21] == 'よ' && s[22] == 'ろ' && s[23] == 'を' && s[24] == 'ご' && s[25] == 'ぞ' && s[26] == 'ど' && s[27] == 'ぼ' && s[28] == 'ぽ');
}

/// The letters of a list, one by one.
proof fn lemma_plain(c: char)
    ensures
        "かきくけこさしすせそたちつてとはひふへほ"@.contains(c) == (c == 'か' || c == 'き' || c == 'く' || c == 'け' || c == 'こ' || c == 'さ' || c == 'し' || c == 'す' || c == 'せ' || c == 'そ' || c == 'た' || c == 'ち' || c == 'つ' || c == 'て' || c == 'と' || c == 'は' || c == 'ひ' || c == 'ふ' || c == 'へ' || c == 'ほ'),
{
    reveal_strlit("かきくけこさしすせそたちつてとはひふへほ");
    let s = "かきくけこさしすせそたちつてとはひふへほ"@;
    assert(s[0] == 'か' && s[1] == 'き' && s[2] == 'く' && s[3] == 'け' && s[4] == 'こ' && s[5] == 'さ' && s[6] == 'し' && s[7] == 'す' && s[8] == 'せ' && s[9] == 'そ' && s[10] == 'た' && s[11] == 'ち' && s[12] == 'つ' && s[13] == 'て' && s[14] == 'と' && s[15] == 'は' && s[16] == 'ひ' && s[17] == 'ふ' && s[18] == 'へ' && s[19] == 'ほ');
}

/// The letters of a list, one by one.
proof fn lemma_voiced(c: char)
    ensures
        "がぎぐげござじずぜぞだぢづでど"@.contains(c) == (c == 'が' || c == 'ぎ' || c == 'ぐ' || c == 'げ' || c == 'ご' || c == 'ざ' || c == 'じ' || c == 'ず' || c == 'ぜ' || c == 'ぞ' || c == 'だ' || c == 'ぢ' || c == 'づ' || c == 'で' || c == 'ど'),
{
    reveal_strlit("がぎぐげござじずぜぞだぢづでど");
    let s = "がぎぐげござじずぜぞだぢづでど"@;
    assert(s[0] == 'が' && s[1] == 'ぎ' && s[2] == 'ぐ' && s[3] == 'げ' && s[4] == 'ご' && s[5] == 'ざ' && s[6] == 'じ' && s[7] == 'ず' && s[8] == 'ぜ' && s[9] == 'ぞ' && s[10] == 'だ' && s[11] == 'ぢ' && s[12] == 'づ' && s[13] == 'で' && s[14] == 'ど');
}

/// The letters of a list, one by one.
proof fn lemma_ba(c: char)
    ensures
        "ばびぶべぼ"@.contains(c) == (c == 'ば' || c == 'び' || c == 'ぶ' || c == 'べ' || c == 'ぼ'),
{
    reveal_strlit("ばびぶべぼ");
    let s = "ばびぶべぼ"@;
    assert(s[0] == 'ば' && s[1] == 'び' && s[2] == 'ぶ' && s[3] == 'べ' && s[4] == 'ぼ');
}

/// The letters of a list, one by one.
proof fn lemma_pa(c: char)
    ensures
        "ぱぴぷぺぽ"@.contains(c) == (c == 'ぱ' || c == 'ぴ' || c == 'ぷ' || c == 'ぺ' || c == 'ぽ'),
{
    reveal_strlit("ぱぴぷぺぽ");
    let s = "ぱぴぷぺぽ"@;
    assert(s[0] == 'ぱ' && s[1] == 'ぴ' && s[2] == 'ぷ' && s[3] == 'ぺ' && s[4] == 'ぽ');
}

/// The letters of a list, one by one.
proof fn lemma_marks(c: char)
    ensures
        "んっーぁぃぅぇぉゃゅょァィゥェォャュョッ"@.contains(c) == (c == 'ん' || c == 'っ' || c == 'ー' || c == 'ぁ' || c == 'ぃ' || c == 'ぅ' || c == 'ぇ' || c == 'ぉ' || c == 'ゃ' || c == 'ゅ' || c == 'ょ' || c == 'ァ' || c == 'ィ' || c == 'ゥ' || c == 'ェ' || c == 'ォ' || c == 'ャ' || c == 'ュ' || c == 'ョ' || c == 'ッ'),
{
    reveal_strlit("んっーぁぃぅぇぉゃゅょァィゥェォャュョッ");
    let s = "んっーぁぃぅぇぉゃゅょァィゥェォャュョッ"@;
    assert(s[0] == 'ん' && s[1] == 'っ' && s[2] == 'ー' && s[3] == 'ぁ' && s[4] == 'ぃ' && s[5] == 'ぅ' && s[6] == 'ぇ' && s[7] == 'ぉ' && s[8] == 'ゃ' && s[9] == 'ゅ' && s[10] == 'ょ' && s[11] == 'ァ' && s[12] == 'ィ' && s[13] == 'ゥ' && s[14] == 'ェ' && s[15] == 'ォ' && s[16] == 'ャ' && s[17] == 'ュ' && s[18] == 'ョ' && s[19] == 'ッ');
}

/// The vowel that lengthens a syllable.
proof fn lemma_lengthens(vowel: char, c: char)
    ensures
        lengthens(vowel, c) == (kana::lengthened_by(c) == Some(vowel)),
{
    lemma_a(c);
    lemma_i(c);
    lemma_u(c);
}

/// The letter with another mark for voicing.
proof fn lemma_voicing(c: char, d: char)
    ensures
        other_voicing(c, d) == (kana::dakuten_swapped(c) == Some(d)),
{
    lemma_plain(c);
    lemma_voiced(c);
    lemma_ba(c);
    lemma_pa(c);
    match kana::dakuten_swapped(c) {
        Some(x) => {
            lemma_same(x, d);
        },
        None => {},
    }
}

proof fn lemma_same(x: char, d: char)
    ensures
        (x as int == d as int) == (x == d),
{
}

/// What is offered at a place to undo a slip.
spec fn offered(slip: Slip, support: InputSupport, typed: Seq<char>, i: int, r: Seq<char>) -> bool {
    match slip {
        Slip::DoubledN => doubled_n(support, typed, i, r),
        Slip::MissingN => missing_n(support, typed, i, r),
        Slip::ExtraSokuon => extra_tsu(support, typed, i, r),
        Slip::DoubledVowel => doubled_vowel(support, typed, i, r),
        Slip::MissingVowel => missing_vowel(support, typed, i, r),
        Slip::Kana => lookalike(support, typed, i, r),
        Slip::ProperNoun => soundalike(support, typed, i, r),
        Slip::AnyMark => any_mark(typed, i, r),
        Slip::AnyLetter => any_letter(typed, i, r),
    }
}

/// A list of one.
proof fn lemma_one(x: Seq<char>, r: Seq<char>)
    ensures
        seq![x].contains(r) == (r == x),
{
    assert(seq![x][0] == x);
}

/// A list of two.
proof fn lemma_pair(x: Seq<char>, y: Seq<char>, r: Seq<char>)
    ensures
        seq![x, y].contains(r) == (r == x || r == y),
{
    assert(seq![x, y][0] == x);
    assert(seq![x, y][1] == y);
}

/// The letters that a letter may have been mistaken for.
proof fn lemma_lookalikes(support: InputSupport, c: char, d: char)
    ensures
        variants::lookalikes(c, support).contains(d) == mistaken(support, c, d),
{
    lemma_voicing(c, d);
    let all = variants::lookalikes(c, support);
    let swapped = if support.dakuten_swap && kana::dakuten_swapped(c) is Some {
        seq![kana::dakuten_swapped(c)->0]
    } else {
        Seq::<char>::empty()
    };
    if mistaken(support, c, d) {
        if support.dakuten_swap && kana::dakuten_swapped(c) == Some(d) {
            assert(all[0] == d);
        } else {
            assert(all[swapped.len() as int] == d);
        }
    }
}

/// A reading with each letter of a list at a place.
proof fn lemma_replaced(typed: Seq<char>, i: int, letters: Seq<char>, r: Seq<char>)
    ensures
        variants::replaced_by(typed, i, letters).contains(r) == exists|k: int|
            0 <= k < letters.len() && r == typed.update(i, #[trigger] letters[k]),
{
    let all = variants::replaced_by(typed, i, letters);
    if exists|k: int| 0 <= k < letters.len() && r == typed.update(i, #[trigger] letters[k]) {
        let k = choose|k: int| 0 <= k < letters.len() && r == typed.update(i, #[trigger] letters[k]);
        assert(all[k] == r);
    }
    if all.contains(r) {
        let k = all.index_of(r);
        assert(r == typed.update(i, letters[k]));
    }
}

/// The first `n` letters that any letter may stand for.
proof fn lemma_any_letter(typed: Seq<char>, i: int, n: nat, r: Seq<char>)
    requires
        n <= 8,
    ensures
        variants::any_letter_at(typed, i, n).contains(r) == exists|k: int|
            0 <= k < n && r == typed.update(i, #[trigger] "あいうえおんっー"@[k])
                && "あいうえおんっー"@[k] != typed[i],
    decreases n,
{
    reveal_strlit("あいうえおんっー");
    let letters = "あいうえおんっー"@;
    if n > 0 {
        lemma_any_letter(typed, i, (n - 1) as nat, r);
        let before = variants::any_letter_at(typed, i, (n - 1) as nat);
        let all = variants::any_letter_at(typed, i, n);
        let c = letters[n - 1];
        assert(variants::ALPHABET@[n - 1] == c);
        if c == typed[i] {
            assert(all == before);
        } else {
            let last = typed.update(i, c);
            assert(all == before.push(last));
            if before.contains(r) {
                let k = before.index_of(r);
                assert(all[k] == r);
            }
            if r == last {
                assert(all[before.len() as int] == r);
            }
            if all.contains(r) && r != last {
                let k = all.index_of(r);
                assert(before[k] == r);
            }
        }
    }
}

/// What is offered at a place to undo a slip, and nothing else is.
proof fn lemma_offered(slip: Slip, support: InputSupport, typed: Seq<char>, i: int, r: Seq<char>)
    requires
        0 <= i < typed.len(),
    ensures
        variants::undone_at(slip, support, typed, i).contains(r) == offered(
            slip,
            support,
            typed,
            i,
            r,
        ),
{
    let c = typed[i];
    match slip {
        Slip::DoubledN | Slip::ExtraSokuon => {
            lemma_one(typed.remove(i), r);
        },
        Slip::MissingN => {
            lemma_no_consonants(c);
            lemma_vowels(c);
            lemma_one(typed.insert(i, 'ん'), r);
        },
        Slip::DoubledVowel => {
            lemma_vowels(c);
            if i + 1 < typed.len() && typed[i + 1] == c {
                assert(typed.remove(i) =~= typed.remove(i + 1));
            }
            lemma_pair(typed.remove(i), typed.remove(i + 1), r);
        },
        Slip::MissingVowel => {
            if let Some(vowel) = kana::lengthened_by(c) {
                lemma_lengthens(vowel, c);
                lemma_one(typed.insert(i + 1, vowel), r);
            }
            if missing_vowel(support, typed, i, r) {
                let vowel = choose|vowel: char|
                    #[trigger] lengthens(vowel, typed[i]) && !(i + 1 < typed.len() && typed[i + 1]
                        == vowel) && r == typed.insert(i + 1, vowel);
                lemma_lengthens(vowel, c);
            }
        },
        Slip::Kana => {
            let letters = variants::lookalikes(c, support);
            lemma_replaced(typed, i, letters, r);
            if variants::replaced_by(typed, i, letters).contains(r) {
                let k = choose|k: int|
                    0 <= k < letters.len() && r == typed.update(i, #[trigger] letters[k]);
                lemma_lookalikes(support, c, letters[k]);
                assert(letters.contains(letters[k]));
                assert(mistaken(support, typed[i], letters[k]));
            }
            if lookalike(support, typed, i, r) {
                let d = choose|d: char| #[trigger]
                    mistaken(support, typed[i], d) && r == typed.update(i, d);
                lemma_lookalikes(support, c, d);
                let k = letters.index_of(d);
                assert(letters[k] == d);
            }
        },
        Slip::ProperNoun => {
            if let Some(other) = variants::soundalike(c) {
                lemma_one(typed.update(i, other), r);
                assert(sounds_like(c, other));
            }
            if soundalike(support, typed, i, r) {
                let d = choose|d: char| #[trigger] sounds_like(typed[i], d) && r == typed.update(i, d);
                assert(variants::soundalike(c) == Some(d));
            }
        },
        Slip::AnyMark => {
            lemma_marks(c);
            lemma_one(typed.remove(i), r);
        },
        Slip::AnyLetter => {
            lemma_any_letter(typed, i, 8, r);
        },
    }
}

/// What is offered at one of the first `n` places.
proof fn lemma_offered_somewhere(
    slip: Slip,
    support: InputSupport,
    typed: Seq<char>,
    n: nat,
    r: Seq<char>,
)
    requires
        n <= typed.len(),
    ensures
        variants::undone(slip, support, typed, n).contains(r) == exists|i: int|
            0 <= i < n && #[trigger] offered(slip, support, typed, i, r),
    decreases n,
{
    if n > 0 {
        lemma_offered_somewhere(slip, support, typed, (n - 1) as nat, r);
        lemma_offered(slip, support, typed, n - 1, r);
        let before = variants::undone(slip, support, typed, (n - 1) as nat);
        let here = variants::undone_at(slip, support, typed, n - 1);
        let all = variants::undone(slip, support, typed, n);
        if before.contains(r) {
            let k = before.index_of(r);
            assert(all[k] == r);
        }
        if here.contains(r) {
            let k = here.index_of(r);
            assert(all[before.len() + k] == r);
        }
        if all.contains(r) {
            let k = all.index_of(r);
            if k < before.len() {
                assert(before[k] == r);
            } else {
                assert(here[k - before.len()] == r);
            }
        }
    }
}

// ---------------------------------------------------------------------------
// What a list takes.

/// Whether a list starts with another.
spec fn grows(before: Seq<VariantView>, after: Seq<VariantView>) -> bool {
    before.len() <= after.len() && after.take(before.len() as int) == before
}

proof fn lemma_grows_further(a: Seq<VariantView>, b: Seq<VariantView>, c: Seq<VariantView>)
    requires
        grows(a, b),
        grows(b, c),
    ensures
        grows(a, c),
{
    assert(c.take(a.len() as int) =~= c.take(b.len() as int).take(a.len() as int));
}

/// Whether a reading is one of a list.
pub open spec fn holds(list: Seq<VariantView>, typed: Seq<char>, r: Seq<char>) -> bool {
    exists|k: int|
        0 <= k < list.len() && (#[trigger] list[k]).repaired == r && list[k].typed_end
            == strings::utf8_len(typed)
}

proof fn lemma_holds_on(a: Seq<VariantView>, b: Seq<VariantView>, typed: Seq<char>, r: Seq<char>)
    requires
        grows(a, b),
        holds(a, typed, r),
    ensures
        holds(b, typed, r),
{
    let k = choose|k: int|
        0 <= k < a.len() && (#[trigger] a[k]).repaired == r && a[k].typed_end == strings::utf8_len(
            typed,
        );
    assert(b.take(a.len() as int)[k] == b[k]);
}

/// Offers are taken in order, while there is room; what is taken was offered.
proof fn lemma_taken(
    list: Seq<VariantView>,
    typed: Seq<char>,
    offers: Seq<Seq<char>>,
    penalty: int,
    kind: RepairKind,
    limit: nat,
)
    ensures
        ({
            let after = variants::all_admitted(list, typed, offers, penalty, kind, limit);
            &&& grows(list, after)
            &&& after.len() < limit ==> forall|r: Seq<char>|
                #[trigger] offers.contains(r) && can_be_held(typed, r) ==> holds(after, typed, r)
            &&& forall|k: int|
                list.len() <= k < after.len() ==> offers.contains((#[trigger] after[k]).repaired)
                    && after[k].penalty == penalty && after[k].kind == kind && after[k].typed_end
                    == strings::utf8_len(typed) && can_be_held(typed, after[k].repaired) && !holds(
                    list,
                    typed,
                    after[k].repaired,
                ) && list.len() < limit
        }),
    decreases offers.len(),
{
    let after = variants::all_admitted(list, typed, offers, penalty, kind, limit);
    if offers.len() == 0 {
        assert(list.take(list.len() as int) =~= list);
    } else {
        let fewer = offers.drop_last();
        let last = offers.last();
        lemma_taken(list, typed, fewer, penalty, kind, limit);
        let before = variants::all_admitted(list, typed, fewer, penalty, kind, limit);
        assert(grows(before, after)) by {
            assert(after.take(before.len() as int) =~= before);
        }
        lemma_grows_further(list, before, after);
        if after.len() < limit {
            assert forall|r: Seq<char>| #[trigger]
                offers.contains(r) && can_be_held(typed, r) implies holds(after, typed, r) by {
                let k = offers.index_of(r);
                if k < fewer.len() {
                    assert(fewer[k] == r);
                    assert(fewer.contains(r));
                    lemma_holds_on(before, after, typed, r);
                } else {
                    assert(r == last);
                    if variants::listed(before, r, strings::utf8_len(typed)) {
                        assert(holds(before, typed, r));
                        lemma_holds_on(before, after, typed, r);
                    } else {
                        assert(after[before.len() as int].repaired == r);
                    }
                }
            }
        }
        assert forall|k: int| list.len() <= k < after.len() implies offers.contains(
            (#[trigger] after[k]).repaired,
        ) && after[k].penalty == penalty && after[k].kind == kind && after[k].typed_end
            == strings::utf8_len(typed) && can_be_held(typed, after[k].repaired) && !holds(
            list,
            typed,
            after[k].repaired,
        ) && list.len() < limit by {
            if k < before.len() {
                assert(after[k] == before[k]);
                let j = fewer.index_of(before[k].repaired);
                assert(offers[j] == before[k].repaired);
            } else {
                assert(offers[offers.len() - 1] == last);
                if holds(list, typed, last) {
                    lemma_holds_on(list, before, typed, last);
                    assert(variants::listed(before, last, strings::utf8_len(typed)));
                }
            }
        }
    }
}

/// Whether a variant undoes one of several slips.
spec fn undoes_one(
    v: VariantView,
    slips: Seq<Slip>,
    support: InputSupport,
    typed: Seq<char>,
) -> bool {
    exists|j: int, i: int|
        0 <= j < slips.len() && 0 <= i < typed.len() && #[trigger] offered(
            slips[j],
            support,
            typed,
            i,
            v.repaired,
        ) && v.kind == variants::slip_kind(slips[j]) && v.penalty == variants::slip_penalty(
            slips[j],
        )
}

/// All slips are undone, slip by slip; what is in the list undoes one.
proof fn lemma_all_taken(
    slips: Seq<Slip>,
    support: InputSupport,
    typed: Seq<char>,
    limit: nat,
)
    ensures
        ({
            let none = Seq::<VariantView>::empty();
            let after = variants::with_all_undone(none, slips, support, typed, limit);
            &&& after.len() < limit ==> forall|j: int, i: int, r: Seq<char>|
                0 <= j < slips.len() && 0 <= i < typed.len() && #[trigger] offered(
                    slips[j],
                    support,
                    typed,
                    i,
                    r,
                ) && can_be_held(typed, r) ==> holds(after, typed, r)
            &&& forall|k: int|
                0 <= k < after.len() ==> undoes_one(#[trigger] after[k], slips, support, typed)
                    && after[k].typed_end == strings::utf8_len(typed)
        }),
    decreases slips.len(),
{
    let none = Seq::<VariantView>::empty();
    let after = variants::with_all_undone(none, slips, support, typed, limit);
    if slips.len() > 0 {
        let fewer = slips.drop_last();
        let slip = slips.last();
        lemma_all_taken(fewer, support, typed, limit);
        let before = variants::with_all_undone(none, fewer, support, typed, limit);
        let offers = variants::undone(slip, support, typed, typed.len());
        lemma_taken(
            before,
            typed,
            offers,
            variants::slip_penalty(slip) as int,
            variants::slip_kind(slip),
            limit,
        );
        if after.len() < limit {
            assert forall|j: int, i: int, r: Seq<char>|
                0 <= j < slips.len() && 0 <= i < typed.len() && #[trigger] offered(
                    slips[j],
                    support,
                    typed,
                    i,
                    r,
                ) && can_be_held(typed, r) implies holds(after, typed, r) by {
                if j < fewer.len() {
                    assert(fewer[j] == slips[j]);
                    assert(offered(fewer[j], support, typed, i, r));
                    lemma_holds_on(before, after, typed, r);
                } else {
                    lemma_offered_somewhere(slip, support, typed, typed.len(), r);
                    assert(offers.contains(r));
                }
            }
        }
        assert forall|k: int| 0 <= k < after.len() implies undoes_one(
            #[trigger] after[k],
            slips,
            support,
            typed,
        ) && after[k].typed_end == strings::utf8_len(typed) by {
            if k < before.len() {
                assert(after.take(before.len() as int)[k] == after[k]);
                let (j, i) = choose|j: int, i: int|
                    0 <= j < fewer.len() && 0 <= i < typed.len() && #[trigger] offered(
                        fewer[j],
                        support,
                        typed,
                        i,
                        before[k].repaired,
                    ) && before[k].kind == variants::slip_kind(fewer[j]) && before[k].penalty
                        == variants::slip_penalty(fewer[j]);
                assert(offered(slips[j], support, typed, i, after[k].repaired));
            } else {
                let r = after[k].repaired;
                lemma_offered_somewhere(slip, support, typed, typed.len(), r);
                let i = choose|i: int|
                    0 <= i < typed.len() && #[trigger] offered(slip, support, typed, i, r);
                assert(offered(slips[slips.len() - 1], support, typed, i, r));
            }
        }
    }
}

/// Whether a slip is undone by a reading somewhere.
spec fn offered_somewhere(slip: Slip, support: InputSupport, typed: Seq<char>, r: Seq<char>) -> bool {
    exists|i: int| 0 <= i < typed.len() && #[trigger] offered(slip, support, typed, i, r)
}

/// The first of several slips that a reading undoes, or their number.
spec fn first_slip(slips: Seq<Slip>, support: InputSupport, typed: Seq<char>, r: Seq<char>) -> int
    decreases slips.len(),
{
    if slips.len() == 0 {
        0
    } else {
        let before = first_slip(slips.drop_last(), support, typed, r);
        if before < slips.len() - 1 {
            before
        } else if offered_somewhere(slips.last(), support, typed, r) {
            slips.len() - 1
        } else {
            slips.len() as int
        }
    }
}

/// The first slip that a reading undoes comes no later than any other.
proof fn lemma_first_slip(
    slips: Seq<Slip>,
    support: InputSupport,
    typed: Seq<char>,
    r: Seq<char>,
)
    ensures
        0 <= first_slip(slips, support, typed, r) <= slips.len(),
        forall|j: int|
            0 <= j < slips.len() && offered_somewhere(#[trigger] slips[j], support, typed, r)
                ==> first_slip(slips, support, typed, r) <= j,
        first_slip(slips, support, typed, r) < slips.len() ==> offered_somewhere(
            slips[first_slip(slips, support, typed, r)],
            support,
            typed,
            r,
        ),
    decreases slips.len(),
{
    if slips.len() > 0 {
        let fewer = slips.drop_last();
        lemma_first_slip(fewer, support, typed, r);
        assert forall|j: int|
            0 <= j < slips.len() && offered_somewhere(#[trigger] slips[j], support, typed, r) implies first_slip(
            slips,
            support,
            typed,
            r,
        ) <= j by {
            if j < fewer.len() {
                assert(fewer[j] == slips[j]);
            }
        }
    }
}

/// The readings of a list are in the order of the slips that they undo first.
proof fn lemma_in_order(slips: Seq<Slip>, support: InputSupport, typed: Seq<char>, limit: nat)
    ensures
        ({
            let none = Seq::<VariantView>::empty();
            let after = variants::with_all_undone(none, slips, support, typed, limit);
            forall|a: int, b: int|
                0 <= a <= b < after.len() ==> first_slip(
                    slips,
                    support,
                    typed,
                    (#[trigger] after[a]).repaired,
                ) <= first_slip(slips, support, typed, (#[trigger] after[b]).repaired)
                    < slips.len()
        }),
    decreases slips.len(),
{
    let none = Seq::<VariantView>::empty();
    let after = variants::with_all_undone(none, slips, support, typed, limit);
    if slips.len() > 0 {
        let fewer = slips.drop_last();
        let slip = slips.last();
        let before = variants::with_all_undone(none, fewer, support, typed, limit);
        let offers = variants::undone(slip, support, typed, typed.len());
        lemma_in_order(fewer, support, typed, limit);
        lemma_all_taken(fewer, support, typed, limit);
        lemma_taken(
            before,
            typed,
            offers,
            variants::slip_penalty(slip) as int,
            variants::slip_kind(slip),
            limit,
        );
        assert forall|k: int| 0 <= k < after.len() implies if k < before.len() {
            after[k] == before[k] && first_slip(slips, support, typed, (#[trigger] after[k]).repaired)
                == first_slip(fewer, support, typed, before[k].repaired) && first_slip(
                fewer,
                support,
                typed,
                before[k].repaired,
            ) < fewer.len()
        } else {
            first_slip(slips, support, typed, after[k].repaired) == slips.len() - 1
        } by {
            let r = after[k].repaired;
            if k < before.len() {
                assert(after.take(before.len() as int)[k] == after[k]);
                assert(first_slip(fewer, support, typed, before[k].repaired) <= first_slip(
                    fewer,
                    support,
                    typed,
                    before[k].repaired,
                ) < fewer.len());
            } else {
                lemma_offered_somewhere(slip, support, typed, typed.len(), r);
                assert(offers.contains(r));
                assert(offered_somewhere(slip, support, typed, r));
                lemma_first_slip(fewer, support, typed, r);
                let f = first_slip(fewer, support, typed, r);
                if f < fewer.len() {
                    let i = choose|i: int|
                        0 <= i < typed.len() && #[trigger] offered(fewer[f], support, typed, i, r);
                    assert(offered(fewer[f], support, typed, i, r));
                    assert(holds(before, typed, r));
                }
            }
        }
    }
}

/// A reading that can be repaired is looked at, and no other is.
proof fn lemma_repairable(support: InputSupport, typed: Seq<char>)
    ensures
        variants::repairable(typed, support) == can_be_repaired(support, typed),
{
    assert forall|i: int| 0 <= i < typed.len() implies (kana::hiragana(#[trigger] typed[i])
        || kana::katakana(typed[i])) == is_kana(typed[i]) && variants::any_digit(typed[i]) == (('0'
        <= typed[i] && typed[i] <= '9') || ('０' <= typed[i] && typed[i] <= '９')) by {
        lemma_any_digit(typed[i]);
    }
    if variants::repairable(typed, support) {
        let i = choose|i: int|
            0 <= i < typed.len() && (kana::hiragana(#[trigger] typed[i]) || kana::katakana(
                typed[i],
            ));
        assert(is_kana(typed[i]));
    }
    if can_be_repaired(support, typed) {
        let i = choose|i: int| 0 <= i < typed.len() && is_kana(#[trigger] typed[i]);
        assert(kana::hiragana(typed[i]) || kana::katakana(typed[i]));
        assert forall|j: int| 0 <= j < typed.len() implies !variants::any_digit(
            #[trigger] typed[j],
        ) by {
        }
    }
}

proof fn lemma_any_digit(c: char)
    ensures
        variants::any_digit(c) == (('0' <= c && c <= '9') || ('０' <= c && c <= '９')),
{
}

/// How many variants a list may have.
pub open spec fn room(max_variants: nat) -> nat {
    if max_variants < 24 {
        max_variants
    } else {
        24
    }
}

/// Every slip is undone: where a rule that is on makes a reading out of what was typed, or
/// the broad pass does, and the list did not run full, the reading is in the list.
pub proof fn every_slip_is_undone(
    typed: Seq<char>,
    support: InputSupport,
    max_variants: nat,
    r: Seq<char>,
)
    requires
        can_be_repaired(support, typed),
        by_rule(support, typed, r) || by_broad_pass(support, typed, r),
        can_be_held(typed, r),
        variants::variants(typed, support, max_variants).len() < room(max_variants),
    ensures
        holds(variants::variants(typed, support, max_variants), typed, r),
{
    lemma_repairable(support, typed);
    let slips = variants::slips(support.advanced);
    lemma_all_taken(slips, support, typed, room(max_variants));
    if by_rule(support, typed, r) {
        let i = choose|i: int| #[trigger] by_rule_at(support, typed, i, r);
        lemma_rule_slips(support.advanced);
        if doubled_n(support, typed, i, r) {
            assert(offered(slips[0], support, typed, i, r));
        } else if missing_n(support, typed, i, r) {
            assert(offered(slips[1], support, typed, i, r));
        } else if extra_tsu(support, typed, i, r) {
            assert(offered(slips[2], support, typed, i, r));
        } else if doubled_vowel(support, typed, i, r) {
            assert(offered(slips[3], support, typed, i, r));
        } else if missing_vowel(support, typed, i, r) {
            assert(offered(slips[4], support, typed, i, r));
        } else if lookalike(support, typed, i, r) {
            assert(offered(slips[5], support, typed, i, r));
        } else {
            assert(offered(slips[6], support, typed, i, r));
        }
    } else {
        let i = choose|i: int| #[trigger] by_broad_pass_at(typed, i, r);
        lemma_rule_slips(true);
        if any_mark(typed, i, r) {
            assert(offered(slips[7], support, typed, i, r));
        } else {
            assert(offered(slips[8], support, typed, i, r));
        }
    }
}

proof fn lemma_rule_slips(advanced: bool)
    ensures
        ({
            let all = variants::slips(advanced);
            &&& all.len() == if advanced {
                9int
            } else {
                7
            }
            &&& all[0] == Slip::DoubledN
            &&& all[1] == Slip::MissingN
            &&& all[2] == Slip::ExtraSokuon
            &&& all[3] == Slip::DoubledVowel
            &&& all[4] == Slip::MissingVowel
            &&& all[5] == Slip::Kana
            &&& all[6] == Slip::ProperNoun
            &&& advanced ==> all[7] == Slip::AnyMark && all[8] == Slip::AnyLetter
        }),
{
}

/// Nothing else is offered: every variant is a reading that a rule which is on makes out of
/// what was typed, at the cost of a rule, or one of the broad pass, at its higher cost. It
/// stands for all the typed bytes.
pub proof fn every_variant_undoes_a_slip(
    typed: Seq<char>,
    support: InputSupport,
    max_variants: nat,
    k: int,
)
    requires
        0 <= k < variants::variants(typed, support, max_variants).len(),
    ensures
        ({
            let v = variants::variants(typed, support, max_variants)[k];
            &&& can_be_repaired(support, typed)
            &&& v.typed_end == strings::utf8_len(typed)
            &&& match v.kind {
                RepairKind::Rule => v.penalty == 1200 && by_rule(support, typed, v.repaired),
                RepairKind::Advanced => v.penalty == 2400 && by_broad_pass(
                    support,
                    typed,
                    v.repaired,
                ),
                _ => false,
            }
        }),
{
    lemma_repairable(support, typed);
    let slips = variants::slips(support.advanced);
    lemma_all_taken(slips, support, typed, room(max_variants));
    lemma_rule_slips(support.advanced);
    let v = variants::variants(typed, support, max_variants)[k];
    assert(undoes_one(v, slips, support, typed));
    let (j, i) = choose|j: int, i: int|
        0 <= j < slips.len() && 0 <= i < typed.len() && #[trigger] offered(
            slips[j],
            support,
            typed,
            i,
            v.repaired,
        ) && v.kind == variants::slip_kind(slips[j]) && v.penalty == variants::slip_penalty(
            slips[j],
        );
    if j < 7 {
        assert(by_rule_at(support, typed, i, v.repaired));
    } else {
        assert(by_broad_pass_at(typed, i, v.repaired));
    }
}

/// The place of the first rule that makes a reading out of what was typed: one n less goes
/// before one n more, then a small tsu less, a vowel less and a vowel more, letters that
/// look alike and letters that sound alike; then the broad pass, marks before letters.
pub open spec fn rank(support: InputSupport, typed: Seq<char>, r: Seq<char>) -> int {
    if exists|i: int| #[trigger] doubled_n(support, typed, i, r) {
        0
    } else if exists|i: int| #[trigger] missing_n(support, typed, i, r) {
        1
    } else if exists|i: int| #[trigger] extra_tsu(support, typed, i, r) {
        2
    } else if exists|i: int| #[trigger] doubled_vowel(support, typed, i, r) {
        3
    } else if exists|i: int| #[trigger] missing_vowel(support, typed, i, r) {
        4
    } else if exists|i: int| #[trigger] lookalike(support, typed, i, r) {
        5
    } else if exists|i: int| #[trigger] soundalike(support, typed, i, r) {
        6
    } else if exists|i: int| #[trigger] any_mark(typed, i, r) {
        7
    } else {
        8
    }
}

/// What is offered somewhere, slip by slip.
proof fn lemma_somewhere(support: InputSupport, typed: Seq<char>, r: Seq<char>)
    ensures
        offered_somewhere(Slip::DoubledN, support, typed, r) == exists|i: int|
            #[trigger] doubled_n(support, typed, i, r),
        offered_somewhere(Slip::MissingN, support, typed, r) == exists|i: int|
            #[trigger] missing_n(support, typed, i, r),
        offered_somewhere(Slip::ExtraSokuon, support, typed, r) == exists|i: int|
            #[trigger] extra_tsu(support, typed, i, r),
        offered_somewhere(Slip::DoubledVowel, support, typed, r) == exists|i: int|
            #[trigger] doubled_vowel(support, typed, i, r),
        offered_somewhere(Slip::MissingVowel, support, typed, r) == exists|i: int|
            #[trigger] missing_vowel(support, typed, i, r),
        offered_somewhere(Slip::Kana, support, typed, r) == exists|i: int|
            #[trigger] lookalike(support, typed, i, r),
        offered_somewhere(Slip::ProperNoun, support, typed, r) == exists|i: int|
            #[trigger] soundalike(support, typed, i, r),
        offered_somewhere(Slip::AnyMark, support, typed, r) == exists|i: int|
            #[trigger] any_mark(typed, i, r),
{
    assert forall|i: int| #[trigger] doubled_n(support, typed, i, r) implies offered_somewhere(
        Slip::DoubledN,
        support,
        typed,
        r,
    ) by {
        assert(offered(Slip::DoubledN, support, typed, i, r));
    }
    assert forall|i: int| #[trigger] missing_n(support, typed, i, r) implies offered_somewhere(
        Slip::MissingN,
        support,
        typed,
        r,
    ) by {
        assert(offered(Slip::MissingN, support, typed, i, r));
    }
    assert forall|i: int| #[trigger] extra_tsu(support, typed, i, r) implies offered_somewhere(
        Slip::ExtraSokuon,
        support,
        typed,
        r,
    ) by {
        assert(offered(Slip::ExtraSokuon, support, typed, i, r));
    }
    assert forall|i: int| #[trigger] doubled_vowel(support, typed, i, r) implies offered_somewhere(
        Slip::DoubledVowel,
        support,
        typed,
        r,
    ) by {
        assert(offered(Slip::DoubledVowel, support, typed, i, r));
    }
    assert forall|i: int| #[trigger] missing_vowel(support, typed, i, r) implies offered_somewhere(
        Slip::MissingVowel,
        support,
        typed,
        r,
    ) by {
        assert(offered(Slip::MissingVowel, support, typed, i, r));
    }
    assert forall|i: int| #[trigger] lookalike(support, typed, i, r) implies offered_somewhere(
        Slip::Kana,
        support,
        typed,
        r,
    ) by {
        assert(offered(Slip::Kana, support, typed, i, r));
    }
    assert forall|i: int| #[trigger] soundalike(support, typed, i, r) implies offered_somewhere(
        Slip::ProperNoun,
        support,
        typed,
        r,
    ) by {
        assert(offered(Slip::ProperNoun, support, typed, i, r));
    }
    assert forall|i: int| #[trigger] any_mark(typed, i, r) implies offered_somewhere(
        Slip::AnyMark,
        support,
        typed,
        r,
    ) by {
        assert(offered(Slip::AnyMark, support, typed, i, r));
    }
}

proof fn lemma_rank(support: InputSupport, typed: Seq<char>, r: Seq<char>)
    requires
        first_slip(variants::slips(support.advanced), support, typed, r) < variants::slips(
            support.advanced,
        ).len(),
    ensures
        rank(support, typed, r) == first_slip(variants::slips(support.advanced), support, typed, r),
{
    let slips = variants::slips(support.advanced);
    lemma_first_slip(slips, support, typed, r);
    lemma_rule_slips(support.advanced);
    lemma_somewhere(support, typed, r);
    let f = first_slip(slips, support, typed, r);
    assert(offered_somewhere(slips[f], support, typed, r));
    assert(offered_somewhere(slips[0], support, typed, r) ==> f <= 0);
    assert(offered_somewhere(slips[1], support, typed, r) ==> f <= 1);
    assert(offered_somewhere(slips[2], support, typed, r) ==> f <= 2);
    assert(offered_somewhere(slips[3], support, typed, r) ==> f <= 3);
    assert(offered_somewhere(slips[4], support, typed, r) ==> f <= 4);
    assert(offered_somewhere(slips[5], support, typed, r) ==> f <= 5);
    assert(offered_somewhere(slips[6], support, typed, r) ==> f <= 6);
    if support.advanced {
        assert(offered_somewhere(slips[7], support, typed, r) ==> f <= 7);
    }
}

/// Variants are in the order of the rules that make them.
pub proof fn variants_are_in_the_order_of_the_rules(
    typed: Seq<char>,
    support: InputSupport,
    max_variants: nat,
    a: int,
    b: int,
)
    requires
        0 <= a <= b < variants::variants(typed, support, max_variants).len(),
    ensures
        rank(support, typed, variants::variants(typed, support, max_variants)[a].repaired) <= rank(
            support,
            typed,
            variants::variants(typed, support, max_variants)[b].repaired,
        ),
{
    let found = variants::variants(typed, support, max_variants);
    lemma_in_order(variants::slips(support.advanced), support, typed, room(max_variants));
    assert(found[a].repaired == found[a].repaired && found[b].repaired == found[b].repaired);
    lemma_rank(support, typed, found[a].repaired);
    lemma_rank(support, typed, found[b].repaired);
}

proof fn lemma_first_ones(
    few: Seq<VariantView>,
    many: Seq<VariantView>,
    typed: Seq<char>,
    offers: Seq<Seq<char>>,
    penalty: int,
    kind: RepairKind,
    m: nat,
    n: nat,
)
    requires
        m <= n,
        first_of(many, m) == few,
    ensures
        first_of(variants::all_admitted(many, typed, offers, penalty, kind, n), m)
            == variants::all_admitted(few, typed, offers, penalty, kind, m),
    decreases offers.len(),
{
    if offers.len() > 0 {
        let fewer = offers.drop_last();
        lemma_first_ones(few, many, typed, fewer, penalty, kind, m, n);
        let a = variants::all_admitted(few, typed, fewer, penalty, kind, m);
        let b = variants::all_admitted(many, typed, fewer, penalty, kind, n);
        let after = variants::all_admitted(many, typed, offers, penalty, kind, n);
        if b.len() < m {
            assert(a =~= b);
            assert(first_of(after, m) =~= after);
        } else {
            assert(a.len() == m);
            assert(first_of(after, m) =~= a);
        }
    }
}

/// The first `m` of a list.
pub open spec fn first_of(list: Seq<VariantView>, m: nat) -> Seq<VariantView> {
    if list.len() <= m {
        list
    } else {
        list.take(m as int)
    }
}

proof fn lemma_first_slips(slips: Seq<Slip>, support: InputSupport, typed: Seq<char>, m: nat, n: nat)
    requires
        m <= n,
    ensures
        first_of(variants::with_all_undone(Seq::empty(), slips, support, typed, n), m)
            == variants::with_all_undone(Seq::empty(), slips, support, typed, m),
    decreases slips.len(),
{
    if slips.len() > 0 {
        let fewer = slips.drop_last();
        let slip = slips.last();
        lemma_first_slips(fewer, support, typed, m, n);
        lemma_first_ones(
            variants::with_all_undone(Seq::empty(), fewer, support, typed, m),
            variants::with_all_undone(Seq::empty(), fewer, support, typed, n),
            typed,
            variants::undone(slip, support, typed, typed.len()),
            variants::slip_penalty(slip) as int,
            variants::slip_kind(slip),
            m,
            n,
        );
    }
}

/// Fewer variants are the first ones of more, and there are never more than 24.
pub proof fn fewer_variants_are_the_first_ones(
    typed: Seq<char>,
    support: InputSupport,
    fewer: nat,
    more: nat,
)
    requires
        fewer <= more,
    ensures
        variants::variants(typed, support, fewer) == first_of(
            variants::variants(typed, support, more),
            room(fewer),
        ),
        variants::variants(typed, support, more).len() <= 24,
{
    lemma_first_slips(
        variants::slips(support.advanced),
        support,
        typed,
        room(fewer),
        room(more),
    );
    super::laws::variants_are_bounded_single_edits(typed, support, more);
}

} // verus!
