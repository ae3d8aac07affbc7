//! What holds of spellings in Latin letters.

use super::english;
use super::kana;
use crate::preferences::InputSupport;
use vstd::prelude::*;

verus! {

// ---------------------------------------------------------------------------
// Kana and their romaji.

/// The rows of the syllabary with five letters, by their consonants.
pub open spec fn row(consonant: char) -> Seq<char> {
    match consonant {
        'k' => "かきくけこ"@,
        's' => "さしすせそ"@,
        't' => "たちつてと"@,
        'n' => "なにぬねの"@,
        'h' => "はひふへほ"@,
        'm' => "まみむめも"@,
        'r' => "らりるれろ"@,
        'g' => "がぎぐげご"@,
        'z' => "ざじずぜぞ"@,
        'd' => "だぢづでど"@,
        'b' => "ばびぶべぼ"@,
        'p' => "ぱぴぷぺぽ"@,
        _ => Seq::empty(),
    }
}

/// The vowels, in the order of the syllabary.
pub open spec fn vowels() -> Seq<char> {
    "aiueo"@
}

/// The letters of a row are spelled with its consonant and the vowels, one after the other,
/// but for shi, chi, tsu, fu and ji.
pub proof fn rows_are_spelled_with_their_consonant(consonant: char, i: int)
    requires
        row(consonant).len() == 5,
        0 <= i < 5,
    ensures
        ({
            let c = row(consonant)[i];
            kana::romaji_of(c) == Some(
                if c == 'し' {
                    "shi"@
                } else if c == 'ち' {
                    "chi"@
                } else if c == 'つ' {
                    "tsu"@
                } else if c == 'ふ' {
                    "fu"@
                } else if c == 'じ' {
                    "ji"@
                } else {
                    seq![consonant, vowels()[i]]
                },
            )
        }),
{
    reveal_strlit("aiueo");
    reveal_strlit("かきくけこ");
    reveal_strlit("さしすせそ");
    reveal_strlit("たちつてと");
    reveal_strlit("なにぬねの");
    reveal_strlit("はひふへほ");
    reveal_strlit("まみむめも");
    reveal_strlit("らりるれろ");
    reveal_strlit("がぎぐげご");
    reveal_strlit("ざじずぜぞ");
    reveal_strlit("だぢづでど");
    reveal_strlit("ばびぶべぼ");
    reveal_strlit("ぱぴぷぺぽ");
    reveal_strlit("ba");
    reveal_strlit("be");
    reveal_strlit("bi");
    reveal_strlit("bo");
    reveal_strlit("bu");
    reveal_strlit("da");
    reveal_strlit("de");
    reveal_strlit("di");
    reveal_strlit("do");
    reveal_strlit("du");
    reveal_strlit("fu");
    reveal_strlit("ga");
    reveal_strlit("ge");
    reveal_strlit("gi");
    reveal_strlit("go");
    reveal_strlit("gu");
    reveal_strlit("ha");
    reveal_strlit("he");
    reveal_strlit("hi");
    reveal_strlit("ho");
    reveal_strlit("ji");
    reveal_strlit("ka");
    reveal_strlit("ke");
    reveal_strlit("ki");
    reveal_strlit("ko");
    reveal_strlit("ku");
    reveal_strlit("ma");
    reveal_strlit("me");
    reveal_strlit("mi");
    reveal_strlit("mo");
    reveal_strlit("mu");
    reveal_strlit("na");
    reveal_strlit("ne");
    reveal_strlit("ni");
    reveal_strlit("no");
    reveal_strlit("nu");
    reveal_strlit("pa");
    reveal_strlit("pe");
    reveal_strlit("pi");
    reveal_strlit("po");
    reveal_strlit("pu");
    reveal_strlit("ra");
    reveal_strlit("re");
    reveal_strlit("ri");
    reveal_strlit("ro");
    reveal_strlit("ru");
    reveal_strlit("sa");
    reveal_strlit("se");
    reveal_strlit("so");
    reveal_strlit("su");
    reveal_strlit("ta");
    reveal_strlit("te");
    reveal_strlit("to");
    reveal_strlit("wa");
    reveal_strlit("wo");
    reveal_strlit("ya");
    reveal_strlit("yo");
    reveal_strlit("yu");
    reveal_strlit("za");
    reveal_strlit("ze");
    reveal_strlit("zo");
    reveal_strlit("zu");
    assert("ba"@ =~= seq!['b', 'a']);
    assert("be"@ =~= seq!['b', 'e']);
    assert("bi"@ =~= seq!['b', 'i']);
    assert("bo"@ =~= seq!['b', 'o']);
    assert("bu"@ =~= seq!['b', 'u']);
    assert("da"@ =~= seq!['d', 'a']);
    assert("de"@ =~= seq!['d', 'e']);
    assert("di"@ =~= seq!['d', 'i']);
    assert("do"@ =~= seq!['d', 'o']);
    assert("du"@ =~= seq!['d', 'u']);
    assert("fu"@ =~= seq!['f', 'u']);
    assert("ga"@ =~= seq!['g', 'a']);
    assert("ge"@ =~= seq!['g', 'e']);
    assert("gi"@ =~= seq!['g', 'i']);
    assert("go"@ =~= seq!['g', 'o']);
    assert("gu"@ =~= seq!['g', 'u']);
    assert("ha"@ =~= seq!['h', 'a']);
    assert("he"@ =~= seq!['h', 'e']);
    assert("hi"@ =~= seq!['h', 'i']);
    assert("ho"@ =~= seq!['h', 'o']);
    assert("ji"@ =~= seq!['j', 'i']);
    assert("ka"@ =~= seq!['k', 'a']);
    assert("ke"@ =~= seq!['k', 'e']);
    assert("ki"@ =~= seq!['k', 'i']);
    assert("ko"@ =~= seq!['k', 'o']);
    assert("ku"@ =~= seq!['k', 'u']);
    assert("ma"@ =~= seq!['m', 'a']);
    assert("me"@ =~= seq!['m', 'e']);
    assert("mi"@ =~= seq!['m', 'i']);
    assert("mo"@ =~= seq!['m', 'o']);
    assert("mu"@ =~= seq!['m', 'u']);
    assert("na"@ =~= seq!['n', 'a']);
    assert("ne"@ =~= seq!['n', 'e']);
    assert("ni"@ =~= seq!['n', 'i']);
    assert("no"@ =~= seq!['n', 'o']);
    assert("nu"@ =~= seq!['n', 'u']);
    assert("pa"@ =~= seq!['p', 'a']);
    assert("pe"@ =~= seq!['p', 'e']);
    assert("pi"@ =~= seq!['p', 'i']);
    assert("po"@ =~= seq!['p', 'o']);
    assert("pu"@ =~= seq!['p', 'u']);
    assert("ra"@ =~= seq!['r', 'a']);
    assert("re"@ =~= seq!['r', 'e']);
    assert("ri"@ =~= seq!['r', 'i']);
    assert("ro"@ =~= seq!['r', 'o']);
    assert("ru"@ =~= seq!['r', 'u']);
    assert("sa"@ =~= seq!['s', 'a']);
    assert("se"@ =~= seq!['s', 'e']);
    assert("so"@ =~= seq!['s', 'o']);
    assert("su"@ =~= seq!['s', 'u']);
    assert("ta"@ =~= seq!['t', 'a']);
    assert("te"@ =~= seq!['t', 'e']);
    assert("to"@ =~= seq!['t', 'o']);
    assert("wa"@ =~= seq!['w', 'a']);
    assert("wo"@ =~= seq!['w', 'o']);
    assert("ya"@ =~= seq!['y', 'a']);
    assert("yo"@ =~= seq!['y', 'o']);
    assert("yu"@ =~= seq!['y', 'u']);
    assert("za"@ =~= seq!['z', 'a']);
    assert("ze"@ =~= seq!['z', 'e']);
    assert("zo"@ =~= seq!['z', 'o']);
    assert("zu"@ =~= seq!['z', 'u']);
}

/// The other letters: the vowels by themselves, the rows of や and わ, and ん. Small letters
/// are spelled as the large ones, and the long vowel mark is not spelled.
pub proof fn other_letters_are_spelled()
    ensures
        kana::romaji_of('あ') == Some(seq!['a']),
        kana::romaji_of('い') == Some(seq!['i']),
        kana::romaji_of('う') == Some(seq!['u']),
        kana::romaji_of('え') == Some(seq!['e']),
        kana::romaji_of('お') == Some(seq!['o']),
        kana::romaji_of('や') == Some(seq!['y', 'a']),
        kana::romaji_of('ゆ') == Some(seq!['y', 'u']),
        kana::romaji_of('よ') == Some(seq!['y', 'o']),
        kana::romaji_of('わ') == Some(seq!['w', 'a']),
        kana::romaji_of('を') == Some(seq!['w', 'o']),
        kana::romaji_of('ん') == Some(seq!['n']),
        kana::romaji_of('ぁ') == kana::romaji_of('あ'),
        kana::romaji_of('ぃ') == kana::romaji_of('い'),
        kana::romaji_of('ぅ') == kana::romaji_of('う'),
        kana::romaji_of('ぇ') == kana::romaji_of('え'),
        kana::romaji_of('ぉ') == kana::romaji_of('お'),
        kana::romaji_of('ゃ') == kana::romaji_of('や'),
        kana::romaji_of('ゅ') == kana::romaji_of('ゆ'),
        kana::romaji_of('ょ') == kana::romaji_of('よ'),
        kana::romaji_of('っ') == kana::romaji_of('つ'),
        kana::romaji_of('ー') == Some(Seq::<char>::empty()),
{
    reveal_strlit("a");
    reveal_strlit("i");
    reveal_strlit("u");
    reveal_strlit("e");
    reveal_strlit("o");
    reveal_strlit("ya");
    reveal_strlit("yu");
    reveal_strlit("yo");
    reveal_strlit("wa");
    reveal_strlit("wo");
    reveal_strlit("n");
    reveal_strlit("");
    assert("a"@ =~= seq!['a']);
    assert("i"@ =~= seq!['i']);
    assert("u"@ =~= seq!['u']);
    assert("e"@ =~= seq!['e']);
    assert("o"@ =~= seq!['o']);
    assert("ya"@ =~= seq!['y', 'a']);
    assert("yu"@ =~= seq!['y', 'u']);
    assert("yo"@ =~= seq!['y', 'o']);
    assert("wa"@ =~= seq!['w', 'a']);
    assert("wo"@ =~= seq!['w', 'o']);
    assert("n"@ =~= seq!['n']);
    assert(""@ =~= Seq::<char>::empty());
}

/// Whether a letter of the syllabary has its own katakana in loanwords: every one that is
/// not small, but for ぢ and づ.
pub open spec fn is_large(c: char) -> bool {
    kana::romaji_of(c) is Some && c != 'ぢ' && c != 'づ' && c != 'ー' && c != 'っ' && c != 'ぁ' && c
        != 'ぃ' && c != 'ぅ' && c != 'ぇ' && c != 'ぉ' && c != 'ゃ' && c != 'ゅ' && c != 'ょ'
}

/// The romaji of a letter is read as the letter, in katakana: 96 code points further on.
#[verifier::spinoff_prover]
#[verifier::rlimit(80)]
pub proof fn romaji_is_read_as_its_letter(c: char)
    requires
        is_large(c),
    ensures
        english::katakana_of(kana::romaji_of(c)->0) matches Some(text) && text.len() == 1
            && text[0] as int == c as int + 96,
{
    reveal_with_fuel(english::katakana_of, 2);
    let r = kana::romaji_of(c)->0;
    assert(r.skip(r.len() as int) =~= Seq::<char>::empty());
    match c {
        'あ' => {
            reveal_strlit("a");
            reveal_strlit("ア");
        },
        'い' => {
            reveal_strlit("i");
            reveal_strlit("イ");
        },
        'う' => {
            reveal_strlit("u");
            reveal_strlit("ウ");
        },
        'え' => {
            reveal_strlit("e");
            reveal_strlit("エ");
        },
        'お' => {
            reveal_strlit("o");
            reveal_strlit("オ");
        },
        'か' => {
            reveal_strlit("ka");
            reveal_strlit("カ");
        },
        'き' => {
            reveal_strlit("ki");
            reveal_strlit("キ");
        },
        'く' => {
            reveal_strlit("ku");
            reveal_strlit("ク");
        },
        'け' => {
            reveal_strlit("ke");
            reveal_strlit("ケ");
        },
        'こ' => {
            reveal_strlit("ko");
            reveal_strlit("コ");
        },
        'さ' => {
            reveal_strlit("sa");
            reveal_strlit("サ");
        },
        'し' => {
            reveal_strlit("shi");
            reveal_strlit("シ");
        },
        'す' => {
            reveal_strlit("su");
            reveal_strlit("ス");
        },
        'せ' => {
            reveal_strlit("se");
            reveal_strlit("セ");
        },
        'そ' => {
            reveal_strlit("so");
            reveal_strlit("ソ");
        },
        'た' => {
            reveal_strlit("ta");
            reveal_strlit("タ");
        },
        'ち' => {
            reveal_strlit("chi");
            reveal_strlit("チ");
        },
        'つ' => {
            reveal_strlit("tsu");
            reveal_strlit("ツ");
        },
        'て' => {
            reveal_strlit("te");
            reveal_strlit("テ");
        },
        'と' => {
            reveal_strlit("to");
            reveal_strlit("ト");
        },
        'な' => {
            reveal_strlit("na");
            reveal_strlit("ナ");
        },
        'に' => {
            reveal_strlit("ni");
            reveal_strlit("ニ");
        },
        'ぬ' => {
            reveal_strlit("nu");
            reveal_strlit("ヌ");
        },
        'ね' => {
            reveal_strlit("ne");
            reveal_strlit("ネ");
        },
        'の' => {
            reveal_strlit("no");
            reveal_strlit("ノ");
        },
        'は' => {
            reveal_strlit("ha");
            reveal_strlit("ハ");
        },
        'ひ' => {
            reveal_strlit("hi");
            reveal_strlit("ヒ");
        },
        'ふ' => {
            reveal_strlit("fu");
            reveal_strlit("フ");
        },
        'へ' => {
            reveal_strlit("he");
            reveal_strlit("ヘ");
        },
        'ほ' => {
            reveal_strlit("ho");
            reveal_strlit("ホ");
        },
        'ま' => {
            reveal_strlit("ma");
            reveal_strlit("マ");
        },
        'み' => {
            reveal_strlit("mi");
            reveal_strlit("ミ");
        },
        'む' => {
            reveal_strlit("mu");
            reveal_strlit("ム");
        },
        'め' => {
            reveal_strlit("me");
            reveal_strlit("メ");
        },
        'も' => {
            reveal_strlit("mo");
            reveal_strlit("モ");
        },
        'や' => {
            reveal_strlit("ya");
            reveal_strlit("ヤ");
        },
        'ゆ' => {
            reveal_strlit("yu");
            reveal_strlit("ユ");
        },
        'よ' => {
            reveal_strlit("yo");
            reveal_strlit("ヨ");
        },
        'ら' => {
            reveal_strlit("ra");
            reveal_strlit("ラ");
        },
        'り' => {
            reveal_strlit("ri");
            reveal_strlit("リ");
        },
        'る' => {
            reveal_strlit("ru");
            reveal_strlit("ル");
        },
        'れ' => {
            reveal_strlit("re");
            reveal_strlit("レ");
        },
        'ろ' => {
            reveal_strlit("ro");
            reveal_strlit("ロ");
        },
        'わ' => {
            reveal_strlit("wa");
            reveal_strlit("ワ");
        },
        'を' => {
            reveal_strlit("wo");
            reveal_strlit("ヲ");
        },
        'ん' => {
            reveal_strlit("n");
            reveal_strlit("ン");
        },
        'が' => {
            reveal_strlit("ga");
            reveal_strlit("ガ");
        },
        'ぎ' => {
            reveal_strlit("gi");
            reveal_strlit("ギ");
        },
        'ぐ' => {
            reveal_strlit("gu");
            reveal_strlit("グ");
        },
        'げ' => {
            reveal_strlit("ge");
            reveal_strlit("ゲ");
        },
        'ご' => {
            reveal_strlit("go");
            reveal_strlit("ゴ");
        },
        'ざ' => {
            reveal_strlit("za");
            reveal_strlit("ザ");
        },
        'じ' => {
            reveal_strlit("ji");
            reveal_strlit("ジ");
        },
        'ず' => {
            reveal_strlit("zu");
            reveal_strlit("ズ");
        },
        'ぜ' => {
            reveal_strlit("ze");
            reveal_strlit("ゼ");
        },
        'ぞ' => {
            reveal_strlit("zo");
            reveal_strlit("ゾ");
        },
        'だ' => {
            reveal_strlit("da");
            reveal_strlit("ダ");
        },
        'で' => {
            reveal_strlit("de");
            reveal_strlit("デ");
        },
        'ど' => {
            reveal_strlit("do");
            reveal_strlit("ド");
        },
        'ば' => {
            reveal_strlit("ba");
            reveal_strlit("バ");
        },
        'び' => {
            reveal_strlit("bi");
            reveal_strlit("ビ");
        },
        'ぶ' => {
            reveal_strlit("bu");
            reveal_strlit("ブ");
        },
        'べ' => {
            reveal_strlit("be");
            reveal_strlit("ベ");
        },
        'ぼ' => {
            reveal_strlit("bo");
            reveal_strlit("ボ");
        },
        'ぱ' => {
            reveal_strlit("pa");
            reveal_strlit("パ");
        },
        'ぴ' => {
            reveal_strlit("pi");
            reveal_strlit("ピ");
        },
        'ぷ' => {
            reveal_strlit("pu");
            reveal_strlit("プ");
        },
        'ぺ' => {
            reveal_strlit("pe");
            reveal_strlit("ペ");
        },
        'ぽ' => {
            reveal_strlit("po");
            reveal_strlit("ポ");
        },
        _ => {},
    }
}

/// The small letter for the y of a syllable: one code point before ヤ, ユ and ヨ.
pub open spec fn small_y(vowel: char) -> char {
    if vowel == 'a' {
        'ャ'
    } else if vowel == 'u' {
        'ュ'
    } else {
        'ョ'
    }
}

/// A syllable with a y is the letter of its row for i, and a small ya, yu or yo behind it.
/// Those with sh, ch and j are of the rows of サ, タ and ザ.
#[verifier::spinoff_prover]
#[verifier::rlimit(80)]
pub proof fn syllables_with_y_are_two_letters(a: char, vowel: char)
    requires
        vowel == 'a' || vowel == 'u' || vowel == 'o',
    ensures
        (a == 'k' || a == 'n' || a == 'h' || a == 'm' || a == 'r' || a == 'g' || a == 'b' || a == 'p')
            ==> english::katakana_of_three(a, 'y', vowel) == Some(
            english::katakana_of_two(a, 'i')->0 + seq![small_y(vowel)],
        ) && english::katakana_of_two(a, 'i') is Some,
        english::katakana_of_three('s', 'h', vowel) == Some(
            english::katakana_of_three('s', 'h', 'i')->0 + seq![small_y(vowel)],
        ),
        english::katakana_of_three('c', 'h', vowel) == Some(
            english::katakana_of_three('c', 'h', 'i')->0 + seq![small_y(vowel)],
        ),
        english::katakana_of_two('j', vowel) == Some(
            english::katakana_of_two('j', 'i')->0 + seq![small_y(vowel)],
        ),
{
    reveal_strlit("キ");
    reveal_strlit("キャ");
    assert("キャ"@ =~= "キ"@ + seq!['ャ']);
    reveal_strlit("キュ");
    assert("キュ"@ =~= "キ"@ + seq!['ュ']);
    reveal_strlit("キョ");
    assert("キョ"@ =~= "キ"@ + seq!['ョ']);
    reveal_strlit("ニ");
    reveal_strlit("ニャ");
    assert("ニャ"@ =~= "ニ"@ + seq!['ャ']);
    reveal_strlit("ニュ");
    assert("ニュ"@ =~= "ニ"@ + seq!['ュ']);
    reveal_strlit("ニョ");
    assert("ニョ"@ =~= "ニ"@ + seq!['ョ']);
    reveal_strlit("ヒ");
    reveal_strlit("ヒャ");
    assert("ヒャ"@ =~= "ヒ"@ + seq!['ャ']);
    reveal_strlit("ヒュ");
    assert("ヒュ"@ =~= "ヒ"@ + seq!['ュ']);
    reveal_strlit("ヒョ");
    assert("ヒョ"@ =~= "ヒ"@ + seq!['ョ']);
    reveal_strlit("ミ");
    reveal_strlit("ミャ");
    assert("ミャ"@ =~= "ミ"@ + seq!['ャ']);
    reveal_strlit("ミュ");
    assert("ミュ"@ =~= "ミ"@ + seq!['ュ']);
    reveal_strlit("ミョ");
    assert("ミョ"@ =~= "ミ"@ + seq!['ョ']);
    reveal_strlit("リ");
    reveal_strlit("リャ");
    assert("リャ"@ =~= "リ"@ + seq!['ャ']);
    reveal_strlit("リュ");
    assert("リュ"@ =~= "リ"@ + seq!['ュ']);
    reveal_strlit("リョ");
    assert("リョ"@ =~= "リ"@ + seq!['ョ']);
    reveal_strlit("ギ");
    reveal_strlit("ギャ");
    assert("ギャ"@ =~= "ギ"@ + seq!['ャ']);
    reveal_strlit("ギュ");
    assert("ギュ"@ =~= "ギ"@ + seq!['ュ']);
    reveal_strlit("ギョ");
    assert("ギョ"@ =~= "ギ"@ + seq!['ョ']);
    reveal_strlit("ビ");
    reveal_strlit("ビャ");
    assert("ビャ"@ =~= "ビ"@ + seq!['ャ']);
    reveal_strlit("ビュ");
    assert("ビュ"@ =~= "ビ"@ + seq!['ュ']);
    reveal_strlit("ビョ");
    assert("ビョ"@ =~= "ビ"@ + seq!['ョ']);
    reveal_strlit("ピ");
    reveal_strlit("ピャ");
    assert("ピャ"@ =~= "ピ"@ + seq!['ャ']);
    reveal_strlit("ピュ");
    assert("ピュ"@ =~= "ピ"@ + seq!['ュ']);
    reveal_strlit("ピョ");
    assert("ピョ"@ =~= "ピ"@ + seq!['ョ']);
    reveal_strlit("シ");
    reveal_strlit("シャ");
    assert("シャ"@ =~= "シ"@ + seq!['ャ']);
    reveal_strlit("シュ");
    assert("シュ"@ =~= "シ"@ + seq!['ュ']);
    reveal_strlit("ショ");
    assert("ショ"@ =~= "シ"@ + seq!['ョ']);
    reveal_strlit("チ");
    reveal_strlit("チャ");
    assert("チャ"@ =~= "チ"@ + seq!['ャ']);
    reveal_strlit("チュ");
    assert("チュ"@ =~= "チ"@ + seq!['ュ']);
    reveal_strlit("チョ");
    assert("チョ"@ =~= "チ"@ + seq!['ョ']);
    reveal_strlit("ジ");
    reveal_strlit("ジャ");
    assert("ジャ"@ =~= "ジ"@ + seq!['ャ']);
    reveal_strlit("ジュ");
    assert("ジュ"@ =~= "ジ"@ + seq!['ュ']);
    reveal_strlit("ジョ");
    assert("ジョ"@ =~= "ジ"@ + seq!['ョ']);
}

/// A double consonant is a small tsu and then the rest, one letter on; n is none, and nn is
/// ン. A hyphen lengthens a vowel.
pub proof fn double_consonants_are_a_small_tsu(c: char, rest: Seq<char>)
    requires
        'a' <= c,
        c <= 'z',
        c != 'a' && c != 'i' && c != 'u' && c != 'e' && c != 'o' && c != 'n',
        rest.len() > 0,
        rest[0] == c,
    ensures
        english::katakana_of(seq![c] + rest) == match english::katakana_of(rest) {
            Some(text) => Some(seq!['ッ'] + text),
            None => None,
        },
{
    reveal_strlit("ッ");
    let s = seq![c] + rest;
    assert(s.skip(1) =~= rest);
    assert(s[1] == rest[0]);
    assert("ッ"@ =~= seq!['ッ']);
}

/// A syllable is read and then the rest.
pub proof fn syllables_are_read_one_by_one(s: Seq<char>)
    requires
        s.len() > 0,
    ensures
        english::katakana_of(s) matches Some(text) ==> exists|n: int|
            1 <= n <= 3 && n <= s.len() && #[trigger] reads_as(s, n, text),
{
    if english::katakana_of(s) is Some {
        let (first, n) = english::first_katakana(s)->Some_0;
        let text = english::katakana_of(s)->Some_0;
        assert(reads_as(s, n, text)) by {
            assert(text.skip(first.len() as int) =~= english::katakana_of(s.skip(n))->Some_0);
        }
    }
}

/// Whether the first `n` letters of a romaji text are one syllable of a katakana text.
pub open spec fn reads_as(s: Seq<char>, n: int, text: Seq<char>) -> bool {
    exists|k: int|
        0 <= k <= text.len() && english::katakana_of(s.skip(n)) == Some(#[trigger] text.skip(k))
}

// ---------------------------------------------------------------------------
// English spellings.

/// The letter of loanwords for an English one: r for l, and k for c.
pub open spec fn loan(c: char) -> char {
    if c == 'l' {
        'r'
    } else if c == 'c' {
        'k'
    } else {
        c
    }
}

/// A vowel of romaji.
pub open spec fn is_vowel(c: char) -> bool {
    c == 'a' || c == 'i' || c == 'u' || c == 'e' || c == 'o'
}

/// A consonant of English.
pub open spec fn is_consonant(c: char) -> bool {
    'a' <= c && c <= 'z' && !is_vowel(c)
}

/// A vowel, and the mark that lengthens one, stay.
pub proof fn vowels_stay(c: char, rest: Seq<char>)
    requires
        is_vowel(c) || c == '-',
    ensures
        english::skeleton(seq![c] + rest) == seq![c] + english::skeleton(rest),
{
    let s = seq![c] + rest;
    assert(s.skip(1) =~= rest);
}

/// A consonant with a vowel behind it is a syllable of the two.
pub proof fn consonants_take_their_vowel(c: char, v: char, rest: Seq<char>)
    requires
        is_consonant(c),
        is_vowel(v),
    ensures
        english::skeleton(seq![c, v] + rest) == seq![loan(c), v] + english::skeleton(rest),
{
    let s = seq![c, v] + rest;
    assert(s.skip(2) =~= rest);
    assert(s[0] == c && s[1] == v);
}

/// A double consonant is a double one with a u, but for nn before another consonant.
pub proof fn double_consonants_take_a_u(c: char, rest: Seq<char>)
    requires
        is_consonant(c),
    ensures
        english::skeleton(seq![c, c] + rest) == seq![loan(c), loan(c), 'u'] + english::skeleton(
            rest,
        ),
{
    let s = seq![c, c] + rest;
    assert(s.skip(2) =~= rest);
    assert(s[0] == c && s[1] == c);
}

/// An n before another consonant but y is a syllable by itself.
pub proof fn n_is_a_syllable_before_a_consonant(d: char, rest: Seq<char>)
    requires
        !is_vowel(d),
        d != 'n' && d != 'y',
    ensures
        english::skeleton(seq!['n', d] + rest) == seq!['n'] + english::skeleton(seq![d] + rest),
{
    let s = seq!['n', d] + rest;
    assert(s.skip(1) =~= seq![d] + rest);
    assert(s[0] == 'n' && s[1] == d);
}

/// A consonant before another one takes a u.
pub proof fn consonants_before_another_take_a_u(c: char, d: char, rest: Seq<char>)
    requires
        is_consonant(c),
        !is_vowel(d),
        c != d,
        c == 'n' ==> d == 'y',
    ensures
        english::skeleton(seq![c, d] + rest) == seq![loan(c), 'u'] + english::skeleton(
            seq![d] + rest,
        ),
{
    let s = seq![c, d] + rest;
    assert(s.skip(1) =~= seq![d] + rest);
    assert(s[0] == c && s[1] == d);
}

/// At the end t, k, p and c are doubled and take an o, and any other consonant takes a u.
pub proof fn final_consonants_take_a_vowel(c: char)
    requires
        is_consonant(c),
    ensures
        english::skeleton(seq![c]) == if c == 't' || c == 'k' || c == 'p' || c == 'c' {
            seq![loan(c), loan(c), 'o']
        } else {
            seq![loan(c), 'u']
        },
{
    let s = seq![c];
    assert(s.skip(1) =~= Seq::<char>::empty());
    reveal_with_fuel(english::skeleton, 2);
    assert(english::skeleton(s) =~= if c == 't' || c == 'k' || c == 'p' || c == 'c' {
        seq![loan(c), loan(c), 'o']
    } else {
        seq![loan(c), 'u']
    });
}

/// What a pair becomes, place by place.
proof fn lemma_pair_replaced(s: Seq<char>, x: char, y: char, p: char, q: char, i: int)
    requires
        x != y,
        0 <= i < s.len(),
    ensures
        english::pair_replaced(s, x, y, p, q).len() == s.len(),
        english::pair_replaced(s, x, y, p, q)[i] == if i + 1 < s.len() && s[i] == x && s[i + 1] == y {
            p
        } else if i > 0 && s[i - 1] == x && s[i] == y {
            q
        } else {
            s[i]
        },
    decreases s.len(),
{
    let r = english::pair_replaced(s, x, y, p, q);
    if s.len() < 2 {
    } else if s[0] == x && s[1] == y {
        let rest = s.skip(2);
        let below = english::pair_replaced(rest, x, y, p, q);
        if rest.len() > 0 {
            lemma_pair_replaced(rest, x, y, p, q, if i >= 2 {
                i - 2
            } else {
                0
            });
        } else {
            assert(below =~= rest);
        }
        assert(r =~= seq![p, q] + below);
        if i >= 2 {
            assert(r[i] == below[i - 2]);
            assert(rest[i - 2] == s[i]);
            if i > 2 {
                assert(rest[i - 3] == s[i - 1]);
            }
            if i + 1 < s.len() {
                assert(rest[i - 1] == s[i + 1]);
            }
        }
    } else {
        let rest = s.skip(1);
        let below = english::pair_replaced(rest, x, y, p, q);
        lemma_pair_replaced(rest, x, y, p, q, if i >= 1 {
            i - 1
        } else {
            0
        });
        assert(r =~= seq![s[0]] + below);
        if i >= 1 {
            assert(r[i] == below[i - 1]);
            assert(rest[i - 1] == s[i]);
            if i > 1 {
                assert(rest[i - 2] == s[i - 1]);
            }
            if i + 1 < s.len() {
                assert(rest[i] == s[i + 1]);
            }
        }
    }
}

/// Whether a vowel that r lengthens stands at `i`, with the r behind it.
pub open spec fn is_long(s: Seq<char>, i: int) -> bool {
    0 <= i && i + 1 < s.len() && s[i + 1] == 'r' && (s[i] == 'e' || s[i] == 'a' || s[i] == 'o')
}

/// In er, ar and or the r lengthens the vowel, and er sounds as ar does; everything else
/// stays.
pub proof fn r_lengthens_a_vowel(s: Seq<char>, i: int)
    requires
        0 <= i < s.len(),
    ensures
        english::with_long_vowels(s).len() == s.len(),
        english::with_long_vowels(s)[i] == if is_long(s, i) {
            if s[i] == 'o' {
                'o'
            } else {
                'a'
            }
        } else if is_long(s, i - 1) {
            '-'
        } else {
            s[i]
        },
{
    let a = english::pair_replaced(s, 'e', 'r', 'a', '-');
    let b = english::pair_replaced(a, 'a', 'r', 'a', '-');
    lemma_pair_replaced(s, 'e', 'r', 'a', '-', i);
    lemma_pair_replaced(a, 'a', 'r', 'a', '-', i);
    lemma_pair_replaced(b, 'o', 'r', 'o', '-', i);
    if i + 1 < s.len() {
        lemma_pair_replaced(s, 'e', 'r', 'a', '-', i + 1);
        lemma_pair_replaced(a, 'a', 'r', 'a', '-', i + 1);
    }
    if i > 0 {
        lemma_pair_replaced(s, 'e', 'r', 'a', '-', i - 1);
        lemma_pair_replaced(a, 'a', 'r', 'a', '-', i - 1);
    }
}

/// An e at the end behind a consonant is silent, and only that.
pub proof fn a_final_e_is_silent(s: Seq<char>)
    ensures
        s.len() >= 2 && s[s.len() - 1] == 'e' && (is_consonant(s[s.len() - 2]) || ('A' <= s[s.len()
            - 2] && s[s.len() - 2] <= 'Z')) ==> english::without_silent_e(s) == s.take(s.len() - 1),
        !(s.len() >= 2 && s[s.len() - 1] == 'e' && (is_consonant(s[s.len() - 2]) || ('A' <= s[s.len()
            - 2] && s[s.len() - 2] <= 'Z'))) ==> english::without_silent_e(s) == s,
{
    if s.len() > 0 {
        assert(s.drop_last() =~= s.take(s.len() - 1));
    }
}

// ---------------------------------------------------------------------------
// Marks.

/// A digit of either width.
pub open spec fn is_digit(c: char) -> bool {
    ('0' <= c && c <= '9') || ('０' <= c && c <= '９')
}

/// A letter, a digit or a mark of ASCII of either width, but no space.
pub open spec fn is_printed(c: char) -> bool {
    ('!' <= c && c <= '~') || ('！' <= c && c <= '～')
}

/// A mark changes after a digit: a full stop is a decimal point, a comma separates thousands
/// and a middle dot is a slash. After anything printed the long vowel mark is a minus sign.
/// Each goes by its own setting, none where repair is off, and nothing else changes.
pub proof fn marks_change_after_what_was_typed(previous: char, typed: char, support: InputSupport)
    ensures
        super::mark_after(Some(previous), typed, support) == if !support.enabled {
            None
        } else if (typed == '。' || typed == '．') && support.period_after_digit && is_digit(
            previous,
        ) {
            Some('．')
        } else if (typed == '、' || typed == '，') && support.comma_after_digit && is_digit(previous) {
            Some('，')
        } else if (typed == '・' || typed == '／') && support.middle_dot_after_digit && is_digit(
            previous,
        ) {
            Some('／')
        } else if (typed == 'ー' || typed == '－' || typed == '-') && support.long_vowel_after_alnum
            && is_printed(previous) {
            Some('－')
        } else {
            None::<char>
        },
        super::mark_after(None, typed, support) is None,
{
}

/// An entry that corrects a spelling may be used where repair and names are on and repair is
/// not skipped; every other entry may always be used.
pub proof fn spelling_is_corrected_where_repair_is_on(support: InputSupport, skip: bool)
    ensures
        support.corrects_spelling(skip) == (support.enabled && support.fuzzy_proper_nouns && !skip),
{
}

// ---------------------------------------------------------------------------
// Readings in Latin letters.

/// The small half-width letter of a Latin letter of either case and either width.
pub open spec fn small_letter(c: char) -> Option<char> {
    let code = c as u32;
    if 'a' <= c && c <= 'z' {
        Some(c)
    } else if 'A' <= c && c <= 'Z' {
        Some((code + 32) as char)
    } else if 'ａ' <= c && c <= 'ｚ' {
        Some((code - 65248) as char)
    } else if 'Ａ' <= c && c <= 'Ｚ' {
        Some((code - 65216) as char)
    } else {
        None
    }
}

/// Whether a letter is a consonant that can be doubled: any but n.
pub open spec fn can_double(c: char) -> bool {
    'a' <= c && c <= 'z' && c != 'a' && c != 'i' && c != 'u' && c != 'e' && c != 'o' && c != 'n'
}

proof fn lemma_small(c: char)
    ensures
        kana::latin(c) == small_letter(c) is Some,
        small_letter(c) matches Some(x) ==> kana::lower(kana::half_ascii(c)) == x && 'a' <= x && x
            <= 'z',
        english::doubles(kana::lower(kana::half_ascii(c))) == (small_letter(c) matches Some(x)
            && can_double(x)),
{
    let half = kana::half_ascii(c);
    if '\u{ff01}' <= c && c <= '\u{ff5e}' {
        assert(half as u32 == c as u32 - 0xfee0);
    }
    if 'A' <= half && half <= 'Z' {
        assert(kana::lower(half) as u32 == half as u32 + 32);
    }
}

proof fn lemma_first_of(c: char, rest: Seq<char>)
    ensures
        english::spelling(seq![c] + rest) == match (
            english::spelling_of_first(seq![c] + rest),
            english::spelling(rest),
        ) {
            (Some(first), Some(more)) => Some(first + more),
            _ => None,
        },
{
    assert((seq![c] + rest).skip(1) =~= rest);
}

/// A Latin letter is spelled as the small letter, whatever its case and width.
pub proof fn latin_letters_are_spelled_small(c: char, rest: Seq<char>)
    requires
        small_letter(c) is Some,
    ensures
        english::spelling(seq![c] + rest) == match english::spelling(rest) {
            Some(more) => Some(seq![small_letter(c)->0] + more),
            None => None,
        },
{
    lemma_first_of(c, rest);
    lemma_small(c);
    assert((seq![c] + rest)[0] == c);
}

/// A letter of the syllabary is spelled as its romaji.
pub proof fn kana_are_spelled_as_their_romaji(c: char, rest: Seq<char>)
    requires
        kana::romaji_of(c) is Some,
        c != 'っ',
    ensures
        english::spelling(seq![c] + rest) == match english::spelling(rest) {
            Some(more) => Some(kana::romaji_of(c)->0 + more),
            None => None,
        },
{
    lemma_first_of(c, rest);
    lemma_small(c);
    assert((seq![c] + rest)[0] == c);
}

/// A small tsu in front of a consonant doubles it; anywhere else it is tsu.
pub proof fn a_small_tsu_doubles_a_consonant(c: char, rest: Seq<char>)
    requires
        c == 'っ' || c == 'ッ',
    ensures
        english::spelling(seq![c] + rest) == match english::spelling(rest) {
            Some(more) => Some(
                if rest.len() > 0 && (small_letter(rest[0]) matches Some(x) && can_double(x)) {
                    seq![small_letter(rest[0])->0] + more
                } else {
                    seq!['t', 's', 'u'] + more
                },
            ),
            None => None,
        },
{
    reveal_strlit("tsu");
    assert("tsu"@ =~= seq!['t', 's', 'u']);
    lemma_first_of(c, rest);
    assert((seq![c] + rest)[0] == c);
    if rest.len() > 0 {
        lemma_small(rest[0]);
        assert((seq![c] + rest)[1] == rest[0]);
    }
}

/// Blanks are left out of a spelling.
pub proof fn blanks_are_left_out(c: char, rest: Seq<char>)
    requires
        c == ' ' || c == '\t' || c == '\n' || c == '\r' || c == '　',
    ensures
        english::spelling(seq![c] + rest) == english::spelling(rest),
{
    lemma_first_of(c, rest);
    lemma_small(c);
    assert((seq![c] + rest)[0] == c);
    if let Some(more) = english::spelling(rest) {
        assert(Seq::<char>::empty() + more =~= more);
    }
}

/// Nothing that is not a Latin letter, a letter of the syllabary, a small tsu or a blank
/// can be spelled, wherever it stands.
pub proof fn nothing_else_is_spelled(front: Seq<char>, c: char, rest: Seq<char>)
    requires
        small_letter(c) is None,
        kana::romaji_of(c) is None,
        c != 'ッ',
        !kana::white_space(c),
    ensures
        english::spelling(front + (seq![c] + rest)) is None,
    decreases front.len(),
{
    if front.len() == 0 {
        assert(front + (seq![c] + rest) =~= seq![c] + rest);
        lemma_first_of(c, rest);
        lemma_small(c);
        assert((seq![c] + rest)[0] == c);
    } else {
        let whole = front + (seq![c] + rest);
        assert(whole.skip(1) =~= front.skip(1) + (seq![c] + rest));
        nothing_else_is_spelled(front.skip(1), c, rest);
    }
}

// ---------------------------------------------------------------------------
// Loanwords.

/// Whether two spellings are the same but for the case of their letters.
pub open spec fn same_spelling(a: Seq<char>, b: Seq<char>) -> bool {
    &&& a.len() == b.len()
    &&& forall|i: int|
        0 <= i < a.len() ==> ({
            ||| #[trigger] a[i] == b[i]
            ||| 'A' <= a[i] && a[i] <= 'Z' && small_letter(a[i]) == Some(b[i])
        })
}

/// The case of an English spelling does not matter.
pub proof fn spellings_ignore_case(a: Seq<char>, b: Seq<char>)
    requires
        same_spelling(a, b),
    ensures
        english::loanword_romaji(a) == english::loanword_romaji(b),
{
    assert forall|i: int| 0 <= i < a.len() implies kana::lower(#[trigger] a[i]) == kana::lower(b[i])
        && (kana::ascii_letter(a[i]) || a[i] == '-') == (kana::ascii_letter(b[i]) || b[i]
        == '-') by {
        lemma_small(a[i]);
    }
    assert(english::lowered(a) =~= english::lowered(b));
    if exists|i: int| 0 <= i < a.len() && !kana::ascii_letter(#[trigger] a[i]) && a[i] != '-' {
        let i = choose|i: int|
            0 <= i < a.len() && !kana::ascii_letter(#[trigger] a[i]) && a[i] != '-';
        assert(!kana::ascii_letter(b[i]) && b[i] != '-');
    }
    if exists|i: int| 0 <= i < b.len() && !kana::ascii_letter(#[trigger] b[i]) && b[i] != '-' {
        let i = choose|i: int|
            0 <= i < b.len() && !kana::ascii_letter(#[trigger] b[i]) && b[i] != '-';
        assert(!kana::ascii_letter(a[i]) && a[i] != '-');
    }
}

/// Every spelling of letters and hyphens has romaji, and no other text has.
pub proof fn letters_and_hyphens_are_spellings(s: Seq<char>)
    ensures
        english::loanword_romaji(s) is Some == (s.len() > 0 && forall|i: int|
            0 <= i < s.len() ==> ({
                ||| 'a' <= #[trigger] s[i] && s[i] <= 'z'
                ||| 'A' <= s[i] && s[i] <= 'Z'
                ||| s[i] == '-'
            })),
{
    if english::loanword_romaji(s) is Some {
        assert forall|i: int| 0 <= i < s.len() implies ({
            ||| 'a' <= #[trigger] s[i] && s[i] <= 'z'
            ||| 'A' <= s[i] && s[i] <= 'Z'
            ||| s[i] == '-'
        }) by {
            assert(kana::ascii_letter(s[i]) || s[i] == '-');
        }
    }
}

/// A reading that holds a Latin letter is read as its spelling is, by way of the romaji of
/// the spelling, where the katakana take at most 512 bytes.
pub proof fn spellings_are_read_by_way_of_romaji(
    typed: Seq<char>,
    at: int,
    ascii: Seq<char>,
    text: Seq<char>,
)
    requires
        0 <= at < typed.len(),
        small_letter(typed[at]) is Some,
        english::spelling(typed) == Some(ascii),
        vstd::utf8::encode_utf8(ascii).len() <= 512,
        english::loanword_romaji(ascii) is Some,
        english::katakana_of(english::loanword_romaji(ascii)->0) == Some(text),
        text.len() > 0,
        vstd::utf8::encode_utf8(text).len() <= 512,
    ensures
        english::english_reading(typed) == Some(text),
{
    lemma_small(typed[at]);
}

/// A reading in kana alone is no English spelling.
pub proof fn kana_are_no_english(typed: Seq<char>)
    requires
        forall|i: int| 0 <= i < typed.len() ==> small_letter(#[trigger] typed[i]) is None,
    ensures
        english::english_reading(typed) is None,
{
    assert forall|i: int| 0 <= i < typed.len() implies !kana::latin(#[trigger] typed[i]) by {
        lemma_small(typed[i]);
    }
}

} // verus!
