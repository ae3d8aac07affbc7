//! What single characters are, for the rules of repair.

use vstd::prelude::*;

verus! {

/// A hiragana letter.
pub open spec fn hiragana(c: char) -> bool {
    '\u{3041}' <= c && c <= '\u{3096}'
}

/// A hiragana letter.
pub fn is_hiragana(c: char) -> (r: bool)
    ensures
        r == hiragana(c),
{
    '\u{3041}' <= c && c <= '\u{3096}'
}

/// A katakana letter.
pub open spec fn katakana(c: char) -> bool {
    '\u{30a1}' <= c && c <= '\u{30f6}'
}

/// A katakana letter.
pub fn is_katakana(c: char) -> (r: bool)
    ensures
        r == katakana(c),
{
    '\u{30a1}' <= c && c <= '\u{30f6}'
}

/// A vowel, or the mark that lengthens one.
pub open spec fn vowel_kana(c: char) -> bool {
    c == 'あ' || c == 'い' || c == 'う' || c == 'え' || c == 'お' || c == 'ー'
}

/// A vowel, or the mark that lengthens one.
pub fn is_vowel_kana(c: char) -> (r: bool)
    ensures
        r == vowel_kana(c),
{
    c == 'あ' || c == 'い' || c == 'う' || c == 'え' || c == 'お' || c == 'ー'
}

/// A full-width ASCII character as the half-width one; any other character as it
/// is.
pub open spec fn half_ascii(c: char) -> char {
    if '\u{ff01}' <= c && c <= '\u{ff5e}' {
        (c as u32 - 0xfee0) as char
    } else {
        c
    }
}

/// A full-width ASCII character as the half-width one; any other character as it
/// is.
pub fn to_half_ascii(c: char) -> (r: char)
    ensures
        r == half_ascii(c),
{
    if '\u{ff01}' <= c && c <= '\u{ff5e}' {
        ((c as u32 - 0xfee0) as u8) as char
    } else {
        c
    }
}

/// An ASCII letter.
pub open spec fn ascii_letter(c: char) -> bool {
    ('a' <= c && c <= 'z') || ('A' <= c && c <= 'Z')
}

/// An ASCII letter.
pub fn is_ascii_letter(c: char) -> (r: bool)
    ensures
        r == ascii_letter(c),
{
    ('a' <= c && c <= 'z') || ('A' <= c && c <= 'Z')
}

/// An ASCII digit.
pub open spec fn ascii_digit(c: char) -> bool {
    '0' <= c && c <= '9'
}

/// An ASCII digit.
pub fn is_ascii_digit(c: char) -> (r: bool)
    ensures
        r == ascii_digit(c),
{
    '0' <= c && c <= '9'
}

/// A Latin letter of either width.
pub open spec fn latin(c: char) -> bool {
    ascii_letter(half_ascii(c))
}

/// A Latin letter of either width.
pub fn is_latin_letter(c: char) -> (r: bool)
    ensures
        r == latin(c),
{
    is_ascii_letter(to_half_ascii(c))
}

/// An ASCII letter in lower case.
pub open spec fn lower(c: char) -> char {
    if 'A' <= c && c <= 'Z' {
        (c as u32 + 32) as char
    } else {
        c
    }
}

/// An ASCII letter in lower case.
pub fn to_lower(c: char) -> (r: char)
    ensures
        r == lower(c),
{
    if 'A' <= c && c <= 'Z' {
        ((c as u8) + 32) as char
    } else {
        c
    }
}

/// A character with the Unicode property `White_Space`.
pub open spec fn white_space(c: char) -> bool {
    ('\u{9}' <= c && c <= '\u{d}') || c == ' ' || c == '\u{85}' || c == '\u{a0}' || c == '\u{1680}'
        || ('\u{2000}' <= c && c <= '\u{200a}') || c == '\u{2028}' || c == '\u{2029}' || c
        == '\u{202f}' || c == '\u{205f}' || c == '\u{3000}'
}

/// A character with the Unicode property `White_Space`.
pub fn is_white_space(c: char) -> (r: bool)
    ensures
        r == white_space(c),
{
    ('\u{9}' <= c && c <= '\u{d}') || c == ' ' || c == '\u{85}' || c == '\u{a0}' || c == '\u{1680}'
        || ('\u{2000}' <= c && c <= '\u{200a}') || c == '\u{2028}' || c == '\u{2029}' || c
        == '\u{202f}' || c == '\u{205f}' || c == '\u{3000}'
}

/// A mark that is often typed by mistake.
pub open spec fn slip(c: char) -> bool {
    match c {
        'ん' | 'っ' | 'ー' | 'ぁ' | 'ぃ' | 'ぅ' | 'ぇ' | 'ぉ' | 'ゃ' | 'ゅ' | 'ょ' | 'ァ' | 'ィ' | 'ゥ' | 'ェ' | 'ォ' | 'ャ' | 'ュ' | 'ョ' | 'ッ' => true,
        _ => false,
    }
}

/// A mark that is often typed by mistake.
pub fn is_advanced_deletable(c: char) -> (r: bool)
    ensures
        r == slip(c),
{
    match c {
        'ん' | 'っ' | 'ー' | 'ぁ' | 'ぃ' | 'ぅ' | 'ぇ' | 'ぉ' | 'ゃ' | 'ゅ' | 'ょ' | 'ァ' | 'ィ' | 'ゥ' | 'ェ' | 'ォ' | 'ャ' | 'ュ' | 'ョ' | 'ッ' => true,
        _ => false,
    }
}

/// The letter with the voicing mark put on, taken off or exchanged.
pub open spec fn dakuten_swapped(c: char) -> Option<char> {
    match c {
        'は' => Some('ば'),
        'ひ' => Some('び'),
        'ふ' => Some('ぶ'),
        'へ' => Some('べ'),
        'ほ' => Some('ぼ'),
        'ば' => Some('ぱ'),
        'び' => Some('ぴ'),
        'ぶ' => Some('ぷ'),
        'べ' => Some('ぺ'),
        'ぼ' => Some('ぽ'),
        'ぱ' => Some('ば'),
        'ぴ' => Some('び'),
        'ぷ' => Some('ぶ'),
        'ぺ' => Some('べ'),
        'ぽ' => Some('ぼ'),
        'が' => Some('か'),
        'ぎ' => Some('き'),
        'ぐ' => Some('く'),
        'げ' => Some('け'),
        'ご' => Some('こ'),
        'ざ' => Some('さ'),
        'じ' => Some('し'),
        'ず' => Some('す'),
        'ぜ' => Some('せ'),
        'ぞ' => Some('そ'),
        'だ' => Some('た'),
        'ぢ' => Some('ち'),
        'づ' => Some('つ'),
        'で' => Some('て'),
        'ど' => Some('と'),
        'か' => Some('が'),
        'き' => Some('ぎ'),
        'く' => Some('ぐ'),
        'け' => Some('げ'),
        'こ' => Some('ご'),
        'さ' => Some('ざ'),
        'し' => Some('じ'),
        'す' => Some('ず'),
        'せ' => Some('ぜ'),
        'そ' => Some('ぞ'),
        'た' => Some('だ'),
        'ち' => Some('ぢ'),
        'つ' => Some('づ'),
        'て' => Some('で'),
        'と' => Some('ど'),
        _ => None,
    }
}

/// The letter with the voicing mark put on, taken off or exchanged.
pub fn swap_dakuten(c: char) -> (r: Option<char>)
    ensures
        r == dakuten_swapped(c),
{
    match c {
        'は' => Some('ば'),
        'ひ' => Some('び'),
        'ふ' => Some('ぶ'),
        'へ' => Some('べ'),
        'ほ' => Some('ぼ'),
        'ば' => Some('ぱ'),
        'び' => Some('ぴ'),
        'ぶ' => Some('ぷ'),
        'べ' => Some('ぺ'),
        'ぼ' => Some('ぽ'),
        'ぱ' => Some('ば'),
        'ぴ' => Some('び'),
        'ぷ' => Some('ぶ'),
        'ぺ' => Some('べ'),
        'ぽ' => Some('ぼ'),
        'が' => Some('か'),
        'ぎ' => Some('き'),
        'ぐ' => Some('く'),
        'げ' => Some('け'),
        'ご' => Some('こ'),
        'ざ' => Some('さ'),
        'じ' => Some('し'),
        'ず' => Some('す'),
        'ぜ' => Some('せ'),
        'ぞ' => Some('そ'),
        'だ' => Some('た'),
        'ぢ' => Some('ち'),
        'づ' => Some('つ'),
        'で' => Some('て'),
        'ど' => Some('と'),
        'か' => Some('が'),
        'き' => Some('ぎ'),
        'く' => Some('ぐ'),
        'け' => Some('げ'),
        'こ' => Some('ご'),
        'さ' => Some('ざ'),
        'し' => Some('じ'),
        'す' => Some('ず'),
        'せ' => Some('ぜ'),
        'そ' => Some('ぞ'),
        'た' => Some('だ'),
        'ち' => Some('ぢ'),
        'つ' => Some('づ'),
        'て' => Some('で'),
        'と' => Some('ど'),
        _ => None,
    }
}

/// The vowel that lengthens the syllable of a letter.
pub open spec fn lengthened_by(c: char) -> Option<char> {
    match c {
        'あ' | 'か' | 'さ' | 'た' | 'な' | 'は' | 'ま' | 'や' | 'ら' | 'わ' | 'が' | 'ざ' | 'だ' | 'ば' | 'ぱ' => Some('あ'),
        'い' | 'き' | 'し' | 'ち' | 'に' | 'ひ' | 'み' | 'り' | 'ぎ' | 'じ' | 'ぢ' | 'び' | 'ぴ' => Some('い'),
        'う' | 'く' | 'す' | 'つ' | 'ぬ' | 'ふ' | 'む' | 'ゆ' | 'る' | 'ぐ' | 'ず' | 'づ' | 'ぶ' | 'ぷ' => Some('う'),
        'え' | 'け' | 'せ' | 'て' | 'ね' | 'へ' | 'め' | 'れ' | 'げ' | 'ぜ' | 'で' | 'べ' | 'ぺ' => Some('い'),
        'お' | 'こ' | 'そ' | 'と' | 'の' | 'ほ' | 'も' | 'よ' | 'ろ' | 'を' | 'ご' | 'ぞ' | 'ど' | 'ぼ' | 'ぽ' => Some('う'),
        _ => None,
    }
}

/// The vowel that lengthens the syllable of a letter.
pub fn lengthening_vowel(c: char) -> (r: Option<char>)
    ensures
        r == lengthened_by(c),
{
    match c {
        'あ' | 'か' | 'さ' | 'た' | 'な' | 'は' | 'ま' | 'や' | 'ら' | 'わ' | 'が' | 'ざ' | 'だ' | 'ば' | 'ぱ' => Some('あ'),
        'い' | 'き' | 'し' | 'ち' | 'に' | 'ひ' | 'み' | 'り' | 'ぎ' | 'じ' | 'ぢ' | 'び' | 'ぴ' => Some('い'),
        'う' | 'く' | 'す' | 'つ' | 'ぬ' | 'ふ' | 'む' | 'ゆ' | 'る' | 'ぐ' | 'ず' | 'づ' | 'ぶ' | 'ぷ' => Some('う'),
        'え' | 'け' | 'せ' | 'て' | 'ね' | 'へ' | 'め' | 'れ' | 'げ' | 'ぜ' | 'で' | 'べ' | 'ぺ' => Some('い'),
        'お' | 'こ' | 'そ' | 'と' | 'の' | 'ほ' | 'も' | 'よ' | 'ろ' | 'を' | 'ご' | 'ぞ' | 'ど' | 'ぼ' | 'ぽ' => Some('う'),
        _ => None,
    }
}

/// The romaji of a hiragana letter.
pub open spec fn romaji_of(c: char) -> Option<Seq<char>> {
    match c {
        'あ' => Some("a"@),
        'い' => Some("i"@),
        'う' | 'ぅ' => Some("u"@),
        'え' => Some("e"@),
        'お' => Some("o"@),
        'か' => Some("ka"@),
        'き' => Some("ki"@),
        'く' => Some("ku"@),
        'け' => Some("ke"@),
        'こ' => Some("ko"@),
        'さ' => Some("sa"@),
        'し' => Some("shi"@),
        'す' => Some("su"@),
        'せ' => Some("se"@),
        'そ' => Some("so"@),
        'た' => Some("ta"@),
        'ち' => Some("chi"@),
        'つ' => Some("tsu"@),
        'っ' => Some("tsu"@),
        'て' => Some("te"@),
        'と' => Some("to"@),
        'な' => Some("na"@),
        'に' => Some("ni"@),
        'ぬ' => Some("nu"@),
        'ね' => Some("ne"@),
        'の' => Some("no"@),
        'は' => Some("ha"@),
        'ひ' => Some("hi"@),
        'ふ' => Some("fu"@),
        'へ' => Some("he"@),
        'ほ' => Some("ho"@),
        'ま' => Some("ma"@),
        'み' => Some("mi"@),
        'む' => Some("mu"@),
        'め' => Some("me"@),
        'も' => Some("mo"@),
        'や' => Some("ya"@),
        'ゆ' => Some("yu"@),
        'よ' => Some("yo"@),
        'ら' => Some("ra"@),
        'り' => Some("ri"@),
        'る' => Some("ru"@),
        'れ' => Some("re"@),
        'ろ' => Some("ro"@),
        'わ' => Some("wa"@),
        'を' => Some("wo"@),
        'ん' => Some("n"@),
        'が' => Some("ga"@),
        'ぎ' => Some("gi"@),
        'ぐ' => Some("gu"@),
        'げ' => Some("ge"@),
        'ご' => Some("go"@),
        'ざ' => Some("za"@),
        'じ' => Some("ji"@),
        'ず' => Some("zu"@),
        'ぜ' => Some("ze"@),
        'ぞ' => Some("zo"@),
        'だ' => Some("da"@),
        'ぢ' => Some("di"@),
        'づ' => Some("du"@),
        'で' => Some("de"@),
        'ど' => Some("do"@),
        'ば' => Some("ba"@),
        'び' => Some("bi"@),
        'ぶ' => Some("bu"@),
        'べ' => Some("be"@),
        'ぼ' => Some("bo"@),
        'ぱ' => Some("pa"@),
        'ぴ' => Some("pi"@),
        'ぷ' => Some("pu"@),
        'ぺ' => Some("pe"@),
        'ぽ' => Some("po"@),
        'ぁ' => Some("a"@),
        'ぃ' => Some("i"@),
        'ぇ' => Some("e"@),
        'ぉ' => Some("o"@),
        'ゃ' => Some("ya"@),
        'ゅ' => Some("yu"@),
        'ょ' => Some("yo"@),
        'ー' => Some(""@),
        _ => None,
    }
}

/// The romaji of a hiragana letter.
pub fn kana_to_romaji(c: char) -> (r: Option<&'static str>)
    ensures
        match romaji_of(c) {
            Some(s) => r matches Some(t) && t@ == s,
            None => r is None,
        },
{
    match c {
        'あ' => Some("a"),
        'い' => Some("i"),
        'う' | 'ぅ' => Some("u"),
        'え' => Some("e"),
        'お' => Some("o"),
        'か' => Some("ka"),
        'き' => Some("ki"),
        'く' => Some("ku"),
        'け' => Some("ke"),
        'こ' => Some("ko"),
        'さ' => Some("sa"),
        'し' => Some("shi"),
        'す' => Some("su"),
        'せ' => Some("se"),
        'そ' => Some("so"),
        'た' => Some("ta"),
        'ち' => Some("chi"),
        'つ' => Some("tsu"),
        'っ' => Some("tsu"),
        'て' => Some("te"),
        'と' => Some("to"),
        'な' => Some("na"),
        'に' => Some("ni"),
        'ぬ' => Some("nu"),
        'ね' => Some("ne"),
        'の' => Some("no"),
        'は' => Some("ha"),
        'ひ' => Some("hi"),
        'ふ' => Some("fu"),
        'へ' => Some("he"),
        'ほ' => Some("ho"),
        'ま' => Some("ma"),
        'み' => Some("mi"),
        'む' => Some("mu"),
        'め' => Some("me"),
        'も' => Some("mo"),
        'や' => Some("ya"),
        'ゆ' => Some("yu"),
        'よ' => Some("yo"),
        'ら' => Some("ra"),
        'り' => Some("ri"),
        'る' => Some("ru"),
        'れ' => Some("re"),
        'ろ' => Some("ro"),
        'わ' => Some("wa"),
        'を' => Some("wo"),
        'ん' => Some("n"),
        'が' => Some("ga"),
        'ぎ' => Some("gi"),
        'ぐ' => Some("gu"),
        'げ' => Some("ge"),
        'ご' => Some("go"),
        'ざ' => Some("za"),
        'じ' => Some("ji"),
        'ず' => Some("zu"),
        'ぜ' => Some("ze"),
        'ぞ' => Some("zo"),
        'だ' => Some("da"),
        'ぢ' => Some("di"),
        'づ' => Some("du"),
        'で' => Some("de"),
        'ど' => Some("do"),
        'ば' => Some("ba"),
        'び' => Some("bi"),
        'ぶ' => Some("bu"),
        'べ' => Some("be"),
        'ぼ' => Some("bo"),
        'ぱ' => Some("pa"),
        'ぴ' => Some("pi"),
        'ぷ' => Some("pu"),
        'ぺ' => Some("pe"),
        'ぽ' => Some("po"),
        'ぁ' => Some("a"),
        'ぃ' => Some("i"),
        'ぇ' => Some("e"),
        'ぉ' => Some("o"),
        'ゃ' => Some("ya"),
        'ゅ' => Some("yu"),
        'ょ' => Some("yo"),
        'ー' => Some(""),
        _ => None,
    }
}

} // verus!
