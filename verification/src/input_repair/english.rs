//! English spellings as katakana readings.

use super::kana;
use super::kana::{is_ascii_letter, is_latin_letter, is_white_space, kana_to_romaji, to_half_ascii, to_lower};
use crate::strings;
use crate::values::{FixedStr, MAX_PREEDIT_BYTES};
use vstd::prelude::*;

verus! {

/// The katakana of a syllable of three letters.
pub open spec fn katakana_of_three(a: char, b: char, c: char) -> Option<Seq<char>> {
    match (a, b, c) {
        ('k', 'y', 'a') => Some("キャ"@),
        ('k', 'y', 'u') => Some("キュ"@),
        ('k', 'y', 'o') => Some("キョ"@),
        ('s', 'h', 'a') => Some("シャ"@),
        ('s', 'h', 'u') => Some("シュ"@),
        ('s', 'h', 'o') => Some("ショ"@),
        ('c', 'h', 'a') => Some("チャ"@),
        ('c', 'h', 'u') => Some("チュ"@),
        ('c', 'h', 'o') => Some("チョ"@),
        ('n', 'y', 'a') => Some("ニャ"@),
        ('n', 'y', 'u') => Some("ニュ"@),
        ('n', 'y', 'o') => Some("ニョ"@),
        ('h', 'y', 'a') => Some("ヒャ"@),
        ('h', 'y', 'u') => Some("ヒュ"@),
        ('h', 'y', 'o') => Some("ヒョ"@),
        ('m', 'y', 'a') => Some("ミャ"@),
        ('m', 'y', 'u') => Some("ミュ"@),
        ('m', 'y', 'o') => Some("ミョ"@),
        ('r', 'y', 'a') => Some("リャ"@),
        ('r', 'y', 'u') => Some("リュ"@),
        ('r', 'y', 'o') => Some("リョ"@),
        ('g', 'y', 'a') => Some("ギャ"@),
        ('g', 'y', 'u') => Some("ギュ"@),
        ('g', 'y', 'o') => Some("ギョ"@),
        ('b', 'y', 'a') => Some("ビャ"@),
        ('b', 'y', 'u') => Some("ビュ"@),
        ('b', 'y', 'o') => Some("ビョ"@),
        ('p', 'y', 'a') => Some("ピャ"@),
        ('p', 'y', 'u') => Some("ピュ"@),
        ('p', 'y', 'o') => Some("ピョ"@),
        ('s', 'h', 'i') => Some("シ"@),
        ('c', 'h', 'i') => Some("チ"@),
        ('t', 's', 'u') => Some("ツ"@),
        _ => None,
    }
}

/// The katakana of a syllable of three letters.
fn three_letters(a: char, b: char, c: char) -> (r: Option<&'static str>)
    ensures
        match katakana_of_three(a, b, c) {
            Some(s) => r matches Some(t) && t@ == s,
            None => r is None,
        },
{
    match (a, b, c) {
        ('k', 'y', 'a') => Some("キャ"),
        ('k', 'y', 'u') => Some("キュ"),
        ('k', 'y', 'o') => Some("キョ"),
        ('s', 'h', 'a') => Some("シャ"),
        ('s', 'h', 'u') => Some("シュ"),
        ('s', 'h', 'o') => Some("ショ"),
        ('c', 'h', 'a') => Some("チャ"),
        ('c', 'h', 'u') => Some("チュ"),
        ('c', 'h', 'o') => Some("チョ"),
        ('n', 'y', 'a') => Some("ニャ"),
        ('n', 'y', 'u') => Some("ニュ"),
        ('n', 'y', 'o') => Some("ニョ"),
        ('h', 'y', 'a') => Some("ヒャ"),
        ('h', 'y', 'u') => Some("ヒュ"),
        ('h', 'y', 'o') => Some("ヒョ"),
        ('m', 'y', 'a') => Some("ミャ"),
        ('m', 'y', 'u') => Some("ミュ"),
        ('m', 'y', 'o') => Some("ミョ"),
        ('r', 'y', 'a') => Some("リャ"),
        ('r', 'y', 'u') => Some("リュ"),
        ('r', 'y', 'o') => Some("リョ"),
        ('g', 'y', 'a') => Some("ギャ"),
        ('g', 'y', 'u') => Some("ギュ"),
        ('g', 'y', 'o') => Some("ギョ"),
        ('b', 'y', 'a') => Some("ビャ"),
        ('b', 'y', 'u') => Some("ビュ"),
        ('b', 'y', 'o') => Some("ビョ"),
        ('p', 'y', 'a') => Some("ピャ"),
        ('p', 'y', 'u') => Some("ピュ"),
        ('p', 'y', 'o') => Some("ピョ"),
        ('s', 'h', 'i') => Some("シ"),
        ('c', 'h', 'i') => Some("チ"),
        ('t', 's', 'u') => Some("ツ"),
        _ => None,
    }
}

/// The katakana of a syllable of two letters.
pub open spec fn katakana_of_two(a: char, b: char) -> Option<Seq<char>> {
    match (a, b) {
        ('j', 'a') => Some("ジャ"@),
        ('j', 'u') => Some("ジュ"@),
        ('j', 'o') => Some("ジョ"@),
        ('k', 'a') => Some("カ"@),
        ('k', 'i') => Some("キ"@),
        ('k', 'u') => Some("ク"@),
        ('k', 'e') => Some("ケ"@),
        ('k', 'o') => Some("コ"@),
        ('s', 'a') => Some("サ"@),
        ('s', 'u') => Some("ス"@),
        ('s', 'e') => Some("セ"@),
        ('s', 'o') => Some("ソ"@),
        ('t', 'a') => Some("タ"@),
        ('t', 'e') => Some("テ"@),
        ('t', 'o') => Some("ト"@),
        ('n', 'a') => Some("ナ"@),
        ('n', 'i') => Some("ニ"@),
        ('n', 'u') => Some("ヌ"@),
        ('n', 'e') => Some("ネ"@),
        ('n', 'o') => Some("ノ"@),
        ('h', 'a') => Some("ハ"@),
        ('h', 'i') => Some("ヒ"@),
        ('f', 'u') => Some("フ"@),
        ('h', 'e') => Some("ヘ"@),
        ('h', 'o') => Some("ホ"@),
        ('m', 'a') => Some("マ"@),
        ('m', 'i') => Some("ミ"@),
        ('m', 'u') => Some("ム"@),
        ('m', 'e') => Some("メ"@),
        ('m', 'o') => Some("モ"@),
        ('y', 'a') => Some("ヤ"@),
        ('y', 'u') => Some("ユ"@),
        ('y', 'o') => Some("ヨ"@),
        ('r', 'a') => Some("ラ"@),
        ('r', 'i') => Some("リ"@),
        ('r', 'u') => Some("ル"@),
        ('r', 'e') => Some("レ"@),
        ('r', 'o') => Some("ロ"@),
        ('w', 'a') => Some("ワ"@),
        ('w', 'o') => Some("ヲ"@),
        ('g', 'a') => Some("ガ"@),
        ('g', 'i') => Some("ギ"@),
        ('g', 'u') => Some("グ"@),
        ('g', 'e') => Some("ゲ"@),
        ('g', 'o') => Some("ゴ"@),
        ('z', 'a') => Some("ザ"@),
        ('j', 'i') => Some("ジ"@),
        ('z', 'u') => Some("ズ"@),
        ('z', 'e') => Some("ゼ"@),
        ('z', 'o') => Some("ゾ"@),
        ('d', 'a') => Some("ダ"@),
        ('d', 'e') => Some("デ"@),
        ('d', 'o') => Some("ド"@),
        ('b', 'a') => Some("バ"@),
        ('b', 'i') => Some("ビ"@),
        ('b', 'u') => Some("ブ"@),
        ('b', 'e') => Some("ベ"@),
        ('b', 'o') => Some("ボ"@),
        ('p', 'a') => Some("パ"@),
        ('p', 'i') => Some("ピ"@),
        ('p', 'u') => Some("プ"@),
        ('p', 'e') => Some("ペ"@),
        ('p', 'o') => Some("ポ"@),
        ('n', 'n') => Some("ン"@),
        _ => None,
    }
}

/// The katakana of a syllable of two letters.
fn two_letters(a: char, b: char) -> (r: Option<&'static str>)
    ensures
        match katakana_of_two(a, b) {
            Some(s) => r matches Some(t) && t@ == s,
            None => r is None,
        },
{
    match (a, b) {
        ('j', 'a') => Some("ジャ"),
        ('j', 'u') => Some("ジュ"),
        ('j', 'o') => Some("ジョ"),
        ('k', 'a') => Some("カ"),
        ('k', 'i') => Some("キ"),
        ('k', 'u') => Some("ク"),
        ('k', 'e') => Some("ケ"),
        ('k', 'o') => Some("コ"),
        ('s', 'a') => Some("サ"),
        ('s', 'u') => Some("ス"),
        ('s', 'e') => Some("セ"),
        ('s', 'o') => Some("ソ"),
        ('t', 'a') => Some("タ"),
        ('t', 'e') => Some("テ"),
        ('t', 'o') => Some("ト"),
        ('n', 'a') => Some("ナ"),
        ('n', 'i') => Some("ニ"),
        ('n', 'u') => Some("ヌ"),
        ('n', 'e') => Some("ネ"),
        ('n', 'o') => Some("ノ"),
        ('h', 'a') => Some("ハ"),
        ('h', 'i') => Some("ヒ"),
        ('f', 'u') => Some("フ"),
        ('h', 'e') => Some("ヘ"),
        ('h', 'o') => Some("ホ"),
        ('m', 'a') => Some("マ"),
        ('m', 'i') => Some("ミ"),
        ('m', 'u') => Some("ム"),
        ('m', 'e') => Some("メ"),
        ('m', 'o') => Some("モ"),
        ('y', 'a') => Some("ヤ"),
        ('y', 'u') => Some("ユ"),
        ('y', 'o') => Some("ヨ"),
        ('r', 'a') => Some("ラ"),
        ('r', 'i') => Some("リ"),
        ('r', 'u') => Some("ル"),
        ('r', 'e') => Some("レ"),
        ('r', 'o') => Some("ロ"),
        ('w', 'a') => Some("ワ"),
        ('w', 'o') => Some("ヲ"),
        ('g', 'a') => Some("ガ"),
        ('g', 'i') => Some("ギ"),
        ('g', 'u') => Some("グ"),
        ('g', 'e') => Some("ゲ"),
        ('g', 'o') => Some("ゴ"),
        ('z', 'a') => Some("ザ"),
        ('j', 'i') => Some("ジ"),
        ('z', 'u') => Some("ズ"),
        ('z', 'e') => Some("ゼ"),
        ('z', 'o') => Some("ゾ"),
        ('d', 'a') => Some("ダ"),
        ('d', 'e') => Some("デ"),
        ('d', 'o') => Some("ド"),
        ('b', 'a') => Some("バ"),
        ('b', 'i') => Some("ビ"),
        ('b', 'u') => Some("ブ"),
        ('b', 'e') => Some("ベ"),
        ('b', 'o') => Some("ボ"),
        ('p', 'a') => Some("パ"),
        ('p', 'i') => Some("ピ"),
        ('p', 'u') => Some("プ"),
        ('p', 'e') => Some("ペ"),
        ('p', 'o') => Some("ポ"),
        ('n', 'n') => Some("ン"),
        _ => None,
    }
}

/// The katakana of a syllable of one letter.
pub open spec fn katakana_of_one(a: char) -> Option<Seq<char>> {
    match a {
        'a' => Some("ア"@),
        'i' => Some("イ"@),
        'u' => Some("ウ"@),
        'e' => Some("エ"@),
        'o' => Some("オ"@),
        'n' => Some("ン"@),
        '-' => Some("ー"@),
        _ => None,
    }
}

/// The katakana of a syllable of one letter.
fn one_letter(a: char) -> (r: Option<&'static str>)
    ensures
        match katakana_of_one(a) {
            Some(s) => r matches Some(t) && t@ == s,
            None => r is None,
        },
{
    match a {
        'a' => Some("ア"),
        'i' => Some("イ"),
        'u' => Some("ウ"),
        'e' => Some("エ"),
        'o' => Some("オ"),
        'n' => Some("ン"),
        '-' => Some("ー"),
        _ => None,
    }
}

/// A vowel of an English spelling.
pub open spec fn english_vowel(c: char) -> bool {
    c == 'a' || c == 'i' || c == 'u' || c == 'e' || c == 'o'
}

/// A vowel of an English spelling.
fn is_english_vowel(c: char) -> (r: bool)
    ensures
        r == english_vowel(c),
{
    c == 'a' || c == 'i' || c == 'u' || c == 'e' || c == 'o'
}

/// A consonant of an English spelling.
pub open spec fn english_consonant(c: char) -> bool {
    kana::ascii_letter(c) && !english_vowel(c)
}

/// A consonant of an English spelling.
fn is_english_consonant(c: char) -> (r: bool)
    ensures
        r == english_consonant(c),
{
    is_ascii_letter(c) && !is_english_vowel(c)
}

/// The consonant that a loanword has in place of an English one.
pub open spec fn loan_consonant(c: char) -> char {
    match c {
        'l' => 'r',
        'c' => 'k',
        other => other,
    }
}

/// The consonant that a loanword has in place of an English one.
fn map_english_consonant(c: char) -> (r: char)
    ensures
        r == loan_consonant(c),
{
    match c {
        'l' => 'r',
        'c' => 'k',
        other => other,
    }
}

/// A letter whose doubling stands for a double consonant.
pub open spec fn doubles(c: char) -> bool {
    kana::ascii_letter(c) && !english_vowel(c) && c != 'n'
}

/// A letter whose doubling stands for a double consonant.
fn is_doubling(c: char) -> (r: bool)
    ensures
        r == doubles(c),
{
    is_ascii_letter(c) && !is_english_vowel(c) && c != 'n'
}

/// How the first character of a reading is spelled: a small tsu doubles the Latin
/// consonant that follows it, a Latin letter is itself, a kana is its romaji and
/// white space is nothing. Nothing else can be spelled.
pub open spec fn spelling_of_first(reading: Seq<char>) -> Option<Seq<char>> {
    let c = reading[0];
    if c == 'っ' || c == 'ッ' {
        if reading.len() > 1 && doubles(kana::lower(kana::half_ascii(reading[1]))) {
            Some(seq![kana::lower(kana::half_ascii(reading[1]))])
        } else {
            Some("tsu"@)
        }
    } else if kana::latin(c) {
        Some(seq![kana::lower(kana::half_ascii(c))])
    } else if kana::romaji_of(c) is Some {
        kana::romaji_of(c)
    } else if kana::white_space(c) {
        Some(Seq::<char>::empty())
    } else {
        None
    }
}

/// The Latin spelling of a reading that mixes kana and Latin letters.
pub open spec fn spelling(reading: Seq<char>) -> Option<Seq<char>>
    decreases reading.len(),
{
    if reading.len() == 0 {
        Some(Seq::<char>::empty())
    } else {
        match (spelling_of_first(reading), spelling(reading.skip(1))) {
            (Some(first), Some(rest)) => Some(first + rest),
            _ => None,
        }
    }
}

/// Every `xy` of a text, from the left, as `pq`.
pub open spec fn pair_replaced(s: Seq<char>, x: char, y: char, p: char, q: char) -> Seq<char>
    decreases s.len(),
{
    if s.len() < 2 {
        s
    } else if s[0] == x && s[1] == y {
        seq![p, q] + pair_replaced(s.skip(2), x, y, p, q)
    } else {
        seq![s[0]] + pair_replaced(s.skip(1), x, y, p, q)
    }
}

/// A text in lower case.
pub open spec fn lowered(s: Seq<char>) -> Seq<char> {
    Seq::new(s.len(), |i: int| kana::lower(s[i]))
}

/// A spelling with the long vowels that loanwords hear in `er`, `ar` and `or`.
pub open spec fn with_long_vowels(s: Seq<char>) -> Seq<char> {
    pair_replaced(
        pair_replaced(pair_replaced(s, 'e', 'r', 'a', '-'), 'a', 'r', 'a', '-'),
        'o',
        'r',
        'o',
        '-',
    )
}

/// A spelling without a silent `e` at its end.
pub open spec fn without_silent_e(s: Seq<char>) -> Seq<char> {
    if s.len() >= 2 && s.last() == 'e' && english_consonant(s[s.len() - 2]) {
        s.drop_last()
    } else {
        s
    }
}

/// The romaji of a spelling, syllable by syllable: every consonant without a vowel
/// gets one.
pub open spec fn skeleton(s: Seq<char>) -> Seq<char>
    decreases s.len(),
{
    if s.len() == 0 {
        Seq::<char>::empty()
    } else {
        let (syllable, taken) = first_syllable(s);
        if taken == 2 && s.len() >= 2 {
            syllable + skeleton(s.skip(2))
        } else {
            syllable + skeleton(s.skip(1))
        }
    }
}

/// The first syllable of a spelling and the number of letters it takes.
pub open spec fn first_syllable(s: Seq<char>) -> (Seq<char>, int) {
    let c = s[0];
    let m = loan_consonant(c);
    let more = s.len() > 1;
    if c == '-' || english_vowel(c) {
        (seq![c], 1)
    } else if c == 'n' && more && !english_vowel(s[1]) && s[1] != 'n' && s[1] != 'y' {
        (seq!['n'], 1)
    } else if more && s[1] == c && english_consonant(c) {
        (seq![m, m, 'u'], 2)
    } else if more && english_vowel(s[1]) {
        (seq![m, s[1]], 2)
    } else if !more && (c == 't' || c == 'k' || c == 'p' || c == 'c') {
        (seq![m, m, 'o'], 1)
    } else {
        (seq![m, 'u'], 1)
    }
}

/// The romaji of an English spelling.
pub open spec fn loanword_romaji(ascii: Seq<char>) -> Option<Seq<char>> {
    if ascii.len() == 0 || exists|i: int|
        0 <= i < ascii.len() && !kana::ascii_letter(#[trigger] ascii[i]) && ascii[i] != '-' {
        None
    } else {
        Some(skeleton(without_silent_e(with_long_vowels(lowered(ascii)))))
    }
}

/// The katakana of the syllable that a romaji text starts with and the number of
/// letters it takes: the longest syllable there is, or the small tsu of a double
/// consonant.
pub open spec fn first_katakana(s: Seq<char>) -> Option<(Seq<char>, int)> {
    if s.len() >= 2 && s[0] == s[1] && doubles(s[0]) {
        Some(("ッ"@, 1))
    } else if s.len() >= 3 && katakana_of_three(s[0], s[1], s[2]) is Some {
        Some((katakana_of_three(s[0], s[1], s[2])->0, 3))
    } else if s.len() >= 2 && katakana_of_two(s[0], s[1]) is Some {
        Some((katakana_of_two(s[0], s[1])->0, 2))
    } else if katakana_of_one(s[0]) is Some {
        Some((katakana_of_one(s[0])->0, 1))
    } else {
        None
    }
}

/// The katakana of a romaji text, as long as all of it can be read.
pub open spec fn katakana_of(s: Seq<char>) -> Option<Seq<char>>
    decreases s.len(),
{
    if s.len() == 0 {
        Some(Seq::<char>::empty())
    } else {
        match first_katakana(s) {
            Some((first, taken)) => if 0 < taken <= s.len() {
                match katakana_of(s.skip(taken)) {
                    Some(rest) => Some(first + rest),
                    None => None,
                }
            } else {
                None
            },
            None => None,
        }
    }
}

/// A katakana reading, where there is one that fits uncommitted text.
pub open spec fn katakana_reading(romaji: Seq<char>) -> Option<Seq<char>> {
    match katakana_of(romaji) {
        Some(text) => if text.len() == 0 || strings::utf8_len(text) > MAX_PREEDIT_BYTES {
            None
        } else {
            Some(text)
        },
        None => None,
    }
}

/// The katakana reading of a reading that holds an English spelling.
pub open spec fn english_reading(typed: Seq<char>) -> Option<Seq<char>> {
    if !(exists|i: int| 0 <= i < typed.len() && kana::latin(#[trigger] typed[i])) {
        None
    } else {
        match spelling(typed) {
            Some(ascii) => if strings::utf8_len(ascii) > MAX_PREEDIT_BYTES {
                None
            } else {
                match loanword_romaji(ascii) {
                    Some(romaji) => katakana_reading(romaji),
                    None => None,
                }
            },
            None => None,
        }
    }
}

/// Every `xy` of a text, from the left, as `pq`.
fn replace_pair(s: &[char], x: char, y: char, p: char, q: char) -> (r: Vec<char>)
    ensures
        r@ == pair_replaced(s@, x, y, p, q),
{
    let mut r: Vec<char> = Vec::new();
    let mut i: usize = 0;
    assert(s@.skip(0) =~= s@);
    assert(s.len() == s@.len());
    while i < s.len()
        invariant
            i <= s@.len() <= usize::MAX,
            pair_replaced(s@, x, y, p, q) == r@ + pair_replaced(s@.skip(i as int), x, y, p, q),
        decreases s@.len() - i,
    {
        let ghost rest = s@.skip(i as int);
        let ghost before = r@;
        if s.len() - i >= 2 && s[i] == x && s[i + 1] == y {
            assert(rest.skip(2) =~= s@.skip(i + 2));
            r.push(p);
            r.push(q);
            assert(r@ =~= before + seq![p, q]);
            i = i + 2;
        } else {
            assert(rest.skip(1) =~= s@.skip(i + 1));
            r.push(s[i]);
            assert(r@ =~= before + seq![rest[0]]);
            assert(rest.len() < 2 ==> rest =~= seq![rest[0]] + rest.skip(1));
            i = i + 1;
        }
        assert(r@ + pair_replaced(s@.skip(i as int), x, y, p, q) =~= before + pair_replaced(
            rest,
            x,
            y,
            p,
            q,
        ));
    }
    assert(r@ + pair_replaced(s@.skip(i as int), x, y, p, q) =~= r@);
    r
}

/// Turns an English spelling into romaji that [`romaji_to_katakana`] can read
/// (apple as appuru, internet as intaanetto).
pub fn english_ascii_to_kana_romaji(ascii: &str) -> (r: Option<String>)
    ensures
        match loanword_romaji(ascii@) {
            Some(romaji) => r matches Some(text) && text@ == romaji,
            None => r is None,
        },
{
    let chars: Vec<char> = strings::chars_of(ascii);
    if chars.len() == 0 {
        return None;
    }
    let mut lower: Vec<char> = Vec::new();
    let mut i: usize = 0;
    while i < chars.len()
        invariant
            i <= chars@.len(),
            chars@ == ascii@,
            lower@ == lowered(ascii@.take(i as int)),
            forall|j: int|
                0 <= j < i ==> kana::ascii_letter(#[trigger] ascii@[j]) || ascii@[j] == '-',
        decreases chars@.len() - i,
    {
        let c: char = chars[i];
        if !is_ascii_letter(c) && c != '-' {
            return None;
        }
        lower.push(to_lower(c));
        i = i + 1;
        assert(lower@ =~= lowered(ascii@.take(i as int)));
    }
    assert(ascii@.take(i as int) =~= ascii@);
    let first: Vec<char> = replace_pair(&lower, 'e', 'r', 'a', '-');
    let second: Vec<char> = replace_pair(&first, 'a', 'r', 'a', '-');
    let mut letters: Vec<char> = replace_pair(&second, 'o', 'r', 'o', '-');
    let n: usize = letters.len();
    if n >= 2 && letters[n - 1] == 'e' && is_english_consonant(letters[n - 2]) {
        letters.pop();
    }
    assert(letters@ == without_silent_e(with_long_vowels(lowered(ascii@))));
    Some(skeleton_text(&letters))
}

/// The romaji of a spelling, syllable by syllable.
fn skeleton_text(s: &[char]) -> (r: String)
    ensures
        r@ == skeleton(s@),
{
    let mut r: String = String::new();
    let mut i: usize = 0;
    assert(s@.skip(0) =~= s@);
    assert(s.len() == s@.len());
    while i < s.len()
        invariant
            i <= s@.len() <= usize::MAX,
            skeleton(s@) == r@ + skeleton(s@.skip(i as int)),
        decreases s@.len() - i,
    {
        let ghost rest = s@.skip(i as int);
        let ghost before = r@;
        let c: char = s[i];
        let m: char = map_english_consonant(c);
        let more: bool = s.len() - i > 1;
        let next: char = if more {
            s[i + 1]
        } else {
            '-'
        };
        assert(rest.skip(1) =~= s@.skip(i + 1));
        assert(more ==> rest.skip(2) =~= s@.skip(i + 2));
        if c == '-' || is_english_vowel(c) {
            strings::push_char(&mut r, c);
            i = i + 1;
        } else if c == 'n' && more && !is_english_vowel(next) && next != 'n' && next != 'y' {
            strings::push_char(&mut r, 'n');
            i = i + 1;
        } else if more && next == c && is_english_consonant(c) {
            strings::push_char(&mut r, m);
            strings::push_char(&mut r, m);
            strings::push_char(&mut r, 'u');
            i = i + 2;
        } else if more && is_english_vowel(next) {
            strings::push_char(&mut r, m);
            strings::push_char(&mut r, next);
            i = i + 2;
        } else if !more && (c == 't' || c == 'k' || c == 'p' || c == 'c') {
            strings::push_char(&mut r, m);
            strings::push_char(&mut r, m);
            strings::push_char(&mut r, 'o');
            i = i + 1;
        } else {
            strings::push_char(&mut r, m);
            strings::push_char(&mut r, 'u');
            i = i + 1;
        }
        assert(r@ =~= before + first_syllable(rest).0);
        assert(r@ + skeleton(s@.skip(i as int)) =~= before + skeleton(rest));
    }
    assert(r@ + skeleton(s@.skip(i as int)) =~= r@);
    r
}

/// Reads romaji as katakana, by the longest syllable at each place.
pub fn romaji_to_katakana(romaji: &str) -> (r: Option<FixedStr<MAX_PREEDIT_BYTES>>)
    ensures
        match katakana_reading(romaji@) {
            Some(text) => r matches Some(s) && s@ == text && s.wf(),
            None => r is None,
        },
{
    let s: Vec<char> = strings::chars_of(romaji);
    let mut out: FixedStr<MAX_PREEDIT_BYTES> = FixedStr::new();
    let mut i: usize = 0;
    assert(s@.skip(0) =~= s@);
    assert(match katakana_of(s@) {
        Some(text) => Seq::<char>::empty() + text =~= text,
        None => true,
    });
    while i < s.len()
        invariant
            i <= s@.len(),
            s@ == romaji@,
            out.wf(),
            katakana_of(s@) == joined(out@, katakana_of(s@.skip(i as int))),
        decreases s@.len() - i,
    {
        let ghost rest = s@.skip(i as int);
        let ghost before = out@;
        let left: usize = s.len() - i;
        let mut piece: Option<&'static str> = None;
        let mut taken: usize = 1;
        if left >= 2 && s[i] == s[i + 1] && is_doubling(s[i]) {
            piece = Some("ッ");
        } else {
            if left >= 3 {
                piece = three_letters(s[i], s[i + 1], s[i + 2]);
                taken = 3;
            }
            if piece.is_none() && left >= 2 {
                piece = two_letters(s[i], s[i + 1]);
                taken = 2;
            }
            if piece.is_none() {
                piece = one_letter(s[i]);
                taken = 1;
            }
        }
        assert(match first_katakana(rest) {
            Some((first, n)) => piece matches Some(p) && p@ == first && taken == n,
            None => piece is None,
        });
        let Some(text) = piece else {
            return None;
        };
        assert(rest.skip(taken as int) =~= s@.skip(i + taken));
        proof {
            lemma_joined_longer(before, text@, katakana_of(rest.skip(taken as int)));
        }
        if out.push_str(text).is_err() {
            return None;
        }
        i = i + taken;
    }
    assert(out@ + Seq::<char>::empty() =~= out@);
    if out.is_empty() {
        None
    } else {
        Some(out)
    }
}

/// A text in front of another, where there is one.
pub open spec fn joined(a: Seq<char>, b: Option<Seq<char>>) -> Option<Seq<char>> {
    match b {
        Some(text) => Some(a + text),
        None => None,
    }
}

/// Joining is associative and never shortens.
proof fn lemma_joined_longer(a: Seq<char>, b: Seq<char>, c: Option<Seq<char>>)
    ensures
        joined(a, joined(b, c)) == joined(a + b, c),
        joined(a + b, c) matches Some(text) ==> strings::utf8_len(a + b) <= strings::utf8_len(text),
{
    if let Some(text) = c {
        assert((a + b) + text =~= a + (b + text));
        strings::lemma_encode_concat(a + b, text);
    }
}

/// Rebuilds an English spelling from a reading that mixes kana and Latin letters,
/// such as `あっｐぇ` or `いんてｒねｔ`, and gives the katakana reading to look up.
/// Without a Latin letter, or where the spelling cannot be rebuilt, there is none.
pub fn english_spelling_katakana_reading(typed: &str) -> (r: Option<FixedStr<MAX_PREEDIT_BYTES>>)
    ensures
        match english_reading(typed@) {
            Some(text) => r matches Some(s) && s@ == text && s.wf(),
            None => r is None,
        },
{
    let chars: Vec<char> = strings::chars_of(typed);
    let mut found: bool = false;
    let mut k: usize = 0;
    while k < chars.len()
        invariant
            k <= chars@.len(),
            chars@ == typed@,
            found == exists|i: int| 0 <= i < k && kana::latin(#[trigger] typed@[i]),
        decreases chars@.len() - k,
    {
        if is_latin_letter(chars[k]) {
            assert(kana::latin(typed@[k as int]));
            found = true;
        }
        k = k + 1;
    }
    if !found {
        return None;
    }
    let mut ascii: FixedStr<MAX_PREEDIT_BYTES> = FixedStr::new();
    let mut i: usize = 0;
    assert(chars@.skip(0) =~= chars@);
    assert(match spelling(chars@) {
        Some(text) => Seq::<char>::empty() + text =~= text,
        None => true,
    });
    while i < chars.len()
        invariant
            i <= chars@.len(),
            chars@ == typed@,
            found,
            found == exists|j: int| 0 <= j < typed@.len() && kana::latin(#[trigger] typed@[j]),
            ascii.wf(),
            spelling(chars@) == joined(ascii@, spelling(chars@.skip(i as int))),
        decreases chars@.len() - i,
    {
        let ghost rest = chars@.skip(i as int);
        let ghost before = ascii@;
        let c: char = chars[i];
        assert(rest.skip(1) =~= chars@.skip(i + 1));
        let fits: bool;
        if c == 'っ' || c == 'ッ' {
            let half: char = if i + 1 < chars.len() {
                to_lower(to_half_ascii(chars[i + 1]))
            } else {
                'a'
            };
            if is_doubling(half) {
                assert(before.push(half) =~= before + seq![half]);
                fits = ascii.push(half).is_ok();
            } else {
                fits = ascii.push_str("tsu").is_ok();
            }
        } else if is_latin_letter(c) {
            let half: char = to_lower(to_half_ascii(c));
            assert(before.push(half) =~= before + seq![half]);
            fits = ascii.push(half).is_ok();
        } else {
            match kana_to_romaji(c) {
                Some(romaji) => {
                    fits = ascii.push_str(romaji).is_ok();
                },
                None => {
                    if !is_white_space(c) {
                        return None;
                    }
                    assert(before + Seq::<char>::empty() =~= before);
                    fits = true;
                },
            }
        }
        proof {
            lemma_joined_longer(before, spelling_of_first(rest)->0, spelling(rest.skip(1)));
        }
        if !fits {
            return None;
        }
        i = i + 1;
    }
    assert(ascii@ + Seq::<char>::empty() =~= ascii@);
    match english_ascii_to_kana_romaji(ascii.as_str()) {
        Some(romaji) => romaji_to_katakana(romaji.as_str()),
        None => None,
    }
}

} // verus!
