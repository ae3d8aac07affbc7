//! What holds of the forms of a segment and of identifiers.

use crate::editing;
use crate::editing::{IdentifierStyle, SegmentTransform};
use vstd::prelude::*;

verus! {

// ---------------------------------------------------------------------------
// Half-width katakana.

/// The code point of the letter or mark in full width that a half-width one stands for.
/// The half-width ones are in the order of the syllabary. In full width the letters of a
/// row stand two apart where there are small or voiced ones between them, three apart in
/// the row of ハ, and else one.
pub open spec fn full_code(h: int) -> int {
    if h == 0xff61 {
        0x3002
    } else if h == 0xff62 {
        0x300c
    } else if h == 0xff63 {
        0x300d
    } else if h == 0xff64 {
        0x3001
    } else if h == 0xff65 {
        0x30fb
    } else if h == 0xff66 {
        0x30f2
    } else if h <= 0xff6b {
        0x30a1 + 2 * (h - 0xff67)
    } else if h <= 0xff6e {
        0x30e3 + 2 * (h - 0xff6c)
    } else if h == 0xff6f {
        0x30c3
    } else if h == 0xff70 {
        0x30fc
    } else if h <= 0xff75 {
        0x30a2 + 2 * (h - 0xff71)
    } else if h <= 0xff81 {
        0x30ab + 2 * (h - 0xff76)
    } else if h <= 0xff84 {
        0x30c4 + 2 * (h - 0xff82)
    } else if h <= 0xff89 {
        0x30ca + (h - 0xff85)
    } else if h <= 0xff8e {
        0x30cf + 3 * (h - 0xff8a)
    } else if h <= 0xff93 {
        0x30de + (h - 0xff8f)
    } else if h <= 0xff96 {
        0x30e4 + 2 * (h - 0xff94)
    } else if h <= 0xff9b {
        0x30e9 + (h - 0xff97)
    } else if h == 0xff9c {
        0x30ef
    } else {
        0x30f3
    }
}

/// Whether a half-width letter takes the voicing mark: those of the rows of カ, サ, タ and
/// ハ, and ウ.
pub open spec fn takes_voicing(h: int) -> bool {
    h == 0xff73 || 0xff76 <= h <= 0xff84 || 0xff8a <= h <= 0xff8e
}

/// Whether a half-width letter takes the half-voicing mark: those of the row of ハ.
pub open spec fn takes_half_voicing(h: int) -> bool {
    0xff8a <= h <= 0xff8e
}

/// The code point of a letter with the voicing mark: the next one, but for ヴ.
pub open spec fn voiced_code(h: int) -> int {
    if h == 0xff73 {
        0x30f4
    } else {
        full_code(h) + 1
    }
}

/// A half-width form reads back as what it came from: a letter or mark by itself, or a
/// letter with a mark for voicing behind it.
pub proof fn half_forms_read_back(c: char)
    ensures
        editing::half_form(c) matches Some(s) ==> {
            let h = s[0] as int;
            &&& 0xff61 <= h <= 0xff9d
            &&& s.len() == 1 ==> c as int == full_code(h)
            &&& s.len() != 1 ==> s.len() == 2 && (if s[1] == '\u{ff9e}' {
                takes_voicing(h) && c as int == voiced_code(h)
            } else {
                s[1] == '\u{ff9f}' && takes_half_voicing(h) && c as int == full_code(h) + 2
            })
        },
{
    match c {
        '。' => {
            reveal_strlit("｡");
        },
        '「' => {
            reveal_strlit("｢");
        },
        '」' => {
            reveal_strlit("｣");
        },
        '、' => {
            reveal_strlit("､");
        },
        '・' => {
            reveal_strlit("･");
        },
        'ヲ' => {
            reveal_strlit("ｦ");
        },
        'ァ' => {
            reveal_strlit("ｧ");
        },
        'ィ' => {
            reveal_strlit("ｨ");
        },
        'ゥ' => {
            reveal_strlit("ｩ");
        },
        'ェ' => {
            reveal_strlit("ｪ");
        },
        'ォ' => {
            reveal_strlit("ｫ");
        },
        'ャ' => {
            reveal_strlit("ｬ");
        },
        'ュ' => {
            reveal_strlit("ｭ");
        },
        'ョ' => {
            reveal_strlit("ｮ");
        },
        'ッ' => {
            reveal_strlit("ｯ");
        },
        'ー' => {
            reveal_strlit("ｰ");
        },
        'ア' => {
            reveal_strlit("ｱ");
        },
        'イ' => {
            reveal_strlit("ｲ");
        },
        'ウ' => {
            reveal_strlit("ｳ");
        },
        'エ' => {
            reveal_strlit("ｴ");
        },
        'オ' => {
            reveal_strlit("ｵ");
        },
        'カ' => {
            reveal_strlit("ｶ");
        },
        'キ' => {
            reveal_strlit("ｷ");
        },
        'ク' => {
            reveal_strlit("ｸ");
        },
        'ケ' => {
            reveal_strlit("ｹ");
        },
        'コ' => {
            reveal_strlit("ｺ");
        },
        'サ' => {
            reveal_strlit("ｻ");
        },
        'シ' => {
            reveal_strlit("ｼ");
        },
        'ス' => {
            reveal_strlit("ｽ");
        },
        'セ' => {
            reveal_strlit("ｾ");
        },
        'ソ' => {
            reveal_strlit("ｿ");
        },
        'タ' => {
            reveal_strlit("ﾀ");
        },
        'チ' => {
            reveal_strlit("ﾁ");
        },
        'ツ' => {
            reveal_strlit("ﾂ");
        },
        'テ' => {
            reveal_strlit("ﾃ");
        },
        'ト' => {
            reveal_strlit("ﾄ");
        },
        'ナ' => {
            reveal_strlit("ﾅ");
        },
        'ニ' => {
            reveal_strlit("ﾆ");
        },
        'ヌ' => {
            reveal_strlit("ﾇ");
        },
        'ネ' => {
            reveal_strlit("ﾈ");
        },
        'ノ' => {
            reveal_strlit("ﾉ");
        },
        'ハ' => {
            reveal_strlit("ﾊ");
        },
        'ヒ' => {
            reveal_strlit("ﾋ");
        },
        'フ' => {
            reveal_strlit("ﾌ");
        },
        'ヘ' => {
            reveal_strlit("ﾍ");
        },
        'ホ' => {
            reveal_strlit("ﾎ");
        },
        'マ' => {
            reveal_strlit("ﾏ");
        },
        'ミ' => {
            reveal_strlit("ﾐ");
        },
        'ム' => {
            reveal_strlit("ﾑ");
        },
        'メ' => {
            reveal_strlit("ﾒ");
        },
        'モ' => {
            reveal_strlit("ﾓ");
        },
        'ヤ' => {
            reveal_strlit("ﾔ");
        },
        'ユ' => {
            reveal_strlit("ﾕ");
        },
        'ヨ' => {
            reveal_strlit("ﾖ");
        },
        'ラ' => {
            reveal_strlit("ﾗ");
        },
        'リ' => {
            reveal_strlit("ﾘ");
        },
        'ル' => {
            reveal_strlit("ﾙ");
        },
        'レ' => {
            reveal_strlit("ﾚ");
        },
        'ロ' => {
            reveal_strlit("ﾛ");
        },
        'ワ' => {
            reveal_strlit("ﾜ");
        },
        'ン' => {
            reveal_strlit("ﾝ");
        },
        'ガ' => {
            reveal_strlit("ｶﾞ");
        },
        'ギ' => {
            reveal_strlit("ｷﾞ");
        },
        'グ' => {
            reveal_strlit("ｸﾞ");
        },
        'ゲ' => {
            reveal_strlit("ｹﾞ");
        },
        'ゴ' => {
            reveal_strlit("ｺﾞ");
        },
        'ザ' => {
            reveal_strlit("ｻﾞ");
        },
        'ジ' => {
            reveal_strlit("ｼﾞ");
        },
        'ズ' => {
            reveal_strlit("ｽﾞ");
        },
        'ゼ' => {
            reveal_strlit("ｾﾞ");
        },
        'ゾ' => {
            reveal_strlit("ｿﾞ");
        },
        'ダ' => {
            reveal_strlit("ﾀﾞ");
        },
        'ヂ' => {
            reveal_strlit("ﾁﾞ");
        },
        'ヅ' => {
            reveal_strlit("ﾂﾞ");
        },
        'デ' => {
            reveal_strlit("ﾃﾞ");
        },
        'ド' => {
            reveal_strlit("ﾄﾞ");
        },
        'バ' => {
            reveal_strlit("ﾊﾞ");
        },
        'ビ' => {
            reveal_strlit("ﾋﾞ");
        },
        'ブ' => {
            reveal_strlit("ﾌﾞ");
        },
        'ベ' => {
            reveal_strlit("ﾍﾞ");
        },
        'ボ' => {
            reveal_strlit("ﾎﾞ");
        },
        'パ' => {
            reveal_strlit("ﾊﾟ");
        },
        'ピ' => {
            reveal_strlit("ﾋﾟ");
        },
        'プ' => {
            reveal_strlit("ﾌﾟ");
        },
        'ペ' => {
            reveal_strlit("ﾍﾟ");
        },
        'ポ' => {
            reveal_strlit("ﾎﾟ");
        },
        'ヴ' => {
            reveal_strlit("ｳﾞ");
        },
        _ => {},
    }
}

/// Every half-width letter and mark is a form, by itself and with each mark for voicing
/// that it takes.
#[verifier::spinoff_prover]
#[verifier::rlimit(40)]
pub proof fn every_half_letter_is_a_form(c: char, h: char)
    requires
        '\u{ff61}' <= h,
        h <= '\u{ff9d}',
    ensures
        c as int == full_code(h as int) ==> editing::half_form(c) == Some(seq![h]),
        takes_voicing(h as int) && c as int == voiced_code(h as int) ==> editing::half_form(c)
            == Some(seq![h, '\u{ff9e}']),
        takes_half_voicing(h as int) && c as int == full_code(h as int) + 2 ==> editing::half_form(
            c,
        ) == Some(seq![h, '\u{ff9f}']),
{
    match c {
        '。' => {
            reveal_strlit("｡");
            assert("｡"@ =~= seq!['｡']);
        },
        '「' => {
            reveal_strlit("｢");
            assert("｢"@ =~= seq!['｢']);
        },
        '」' => {
            reveal_strlit("｣");
            assert("｣"@ =~= seq!['｣']);
        },
        '、' => {
            reveal_strlit("､");
            assert("､"@ =~= seq!['､']);
        },
        '・' => {
            reveal_strlit("･");
            assert("･"@ =~= seq!['･']);
        },
        'ヲ' => {
            reveal_strlit("ｦ");
            assert("ｦ"@ =~= seq!['ｦ']);
        },
        'ァ' => {
            reveal_strlit("ｧ");
            assert("ｧ"@ =~= seq!['ｧ']);
        },
        'ィ' => {
            reveal_strlit("ｨ");
            assert("ｨ"@ =~= seq!['ｨ']);
        },
        'ゥ' => {
            reveal_strlit("ｩ");
            assert("ｩ"@ =~= seq!['ｩ']);
        },
        'ェ' => {
            reveal_strlit("ｪ");
            assert("ｪ"@ =~= seq!['ｪ']);
        },
        'ォ' => {
            reveal_strlit("ｫ");
            assert("ｫ"@ =~= seq!['ｫ']);
        },
        'ャ' => {
            reveal_strlit("ｬ");
            assert("ｬ"@ =~= seq!['ｬ']);
        },
        'ュ' => {
            reveal_strlit("ｭ");
            assert("ｭ"@ =~= seq!['ｭ']);
        },
        'ョ' => {
            reveal_strlit("ｮ");
            assert("ｮ"@ =~= seq!['ｮ']);
        },
        'ッ' => {
            reveal_strlit("ｯ");
            assert("ｯ"@ =~= seq!['ｯ']);
        },
        'ー' => {
            reveal_strlit("ｰ");
            assert("ｰ"@ =~= seq!['ｰ']);
        },
        'ア' => {
            reveal_strlit("ｱ");
            assert("ｱ"@ =~= seq!['ｱ']);
        },
        'イ' => {
            reveal_strlit("ｲ");
            assert("ｲ"@ =~= seq!['ｲ']);
        },
        'ウ' => {
            reveal_strlit("ｳ");
            assert("ｳ"@ =~= seq!['ｳ']);
        },
        'エ' => {
            reveal_strlit("ｴ");
            assert("ｴ"@ =~= seq!['ｴ']);
        },
        'オ' => {
            reveal_strlit("ｵ");
            assert("ｵ"@ =~= seq!['ｵ']);
        },
        'カ' => {
            reveal_strlit("ｶ");
            assert("ｶ"@ =~= seq!['ｶ']);
        },
        'キ' => {
            reveal_strlit("ｷ");
            assert("ｷ"@ =~= seq!['ｷ']);
        },
        'ク' => {
            reveal_strlit("ｸ");
            assert("ｸ"@ =~= seq!['ｸ']);
        },
        'ケ' => {
            reveal_strlit("ｹ");
            assert("ｹ"@ =~= seq!['ｹ']);
        },
        'コ' => {
            reveal_strlit("ｺ");
            assert("ｺ"@ =~= seq!['ｺ']);
        },
        'サ' => {
            reveal_strlit("ｻ");
            assert("ｻ"@ =~= seq!['ｻ']);
        },
        'シ' => {
            reveal_strlit("ｼ");
            assert("ｼ"@ =~= seq!['ｼ']);
        },
        'ス' => {
            reveal_strlit("ｽ");
            assert("ｽ"@ =~= seq!['ｽ']);
        },
        'セ' => {
            reveal_strlit("ｾ");
            assert("ｾ"@ =~= seq!['ｾ']);
        },
        'ソ' => {
            reveal_strlit("ｿ");
            assert("ｿ"@ =~= seq!['ｿ']);
        },
        'タ' => {
            reveal_strlit("ﾀ");
            assert("ﾀ"@ =~= seq!['ﾀ']);
        },
        'チ' => {
            reveal_strlit("ﾁ");
            assert("ﾁ"@ =~= seq!['ﾁ']);
        },
        'ツ' => {
            reveal_strlit("ﾂ");
            assert("ﾂ"@ =~= seq!['ﾂ']);
        },
        'テ' => {
            reveal_strlit("ﾃ");
            assert("ﾃ"@ =~= seq!['ﾃ']);
        },
        'ト' => {
            reveal_strlit("ﾄ");
            assert("ﾄ"@ =~= seq!['ﾄ']);
        },
        'ナ' => {
            reveal_strlit("ﾅ");
            assert("ﾅ"@ =~= seq!['ﾅ']);
        },
        'ニ' => {
            reveal_strlit("ﾆ");
            assert("ﾆ"@ =~= seq!['ﾆ']);
        },
        'ヌ' => {
            reveal_strlit("ﾇ");
            assert("ﾇ"@ =~= seq!['ﾇ']);
        },
        'ネ' => {
            reveal_strlit("ﾈ");
            assert("ﾈ"@ =~= seq!['ﾈ']);
        },
        'ノ' => {
            reveal_strlit("ﾉ");
            assert("ﾉ"@ =~= seq!['ﾉ']);
        },
        'ハ' => {
            reveal_strlit("ﾊ");
            assert("ﾊ"@ =~= seq!['ﾊ']);
        },
        'ヒ' => {
            reveal_strlit("ﾋ");
            assert("ﾋ"@ =~= seq!['ﾋ']);
        },
        'フ' => {
            reveal_strlit("ﾌ");
            assert("ﾌ"@ =~= seq!['ﾌ']);
        },
        'ヘ' => {
            reveal_strlit("ﾍ");
            assert("ﾍ"@ =~= seq!['ﾍ']);
        },
        'ホ' => {
            reveal_strlit("ﾎ");
            assert("ﾎ"@ =~= seq!['ﾎ']);
        },
        'マ' => {
            reveal_strlit("ﾏ");
            assert("ﾏ"@ =~= seq!['ﾏ']);
        },
        'ミ' => {
            reveal_strlit("ﾐ");
            assert("ﾐ"@ =~= seq!['ﾐ']);
        },
        'ム' => {
            reveal_strlit("ﾑ");
            assert("ﾑ"@ =~= seq!['ﾑ']);
        },
        'メ' => {
            reveal_strlit("ﾒ");
            assert("ﾒ"@ =~= seq!['ﾒ']);
        },
        'モ' => {
            reveal_strlit("ﾓ");
            assert("ﾓ"@ =~= seq!['ﾓ']);
        },
        'ヤ' => {
            reveal_strlit("ﾔ");
            assert("ﾔ"@ =~= seq!['ﾔ']);
        },
        'ユ' => {
            reveal_strlit("ﾕ");
            assert("ﾕ"@ =~= seq!['ﾕ']);
        },
        'ヨ' => {
            reveal_strlit("ﾖ");
            assert("ﾖ"@ =~= seq!['ﾖ']);
        },
        'ラ' => {
            reveal_strlit("ﾗ");
            assert("ﾗ"@ =~= seq!['ﾗ']);
        },
        'リ' => {
            reveal_strlit("ﾘ");
            assert("ﾘ"@ =~= seq!['ﾘ']);
        },
        'ル' => {
            reveal_strlit("ﾙ");
            assert("ﾙ"@ =~= seq!['ﾙ']);
        },
        'レ' => {
            reveal_strlit("ﾚ");
            assert("ﾚ"@ =~= seq!['ﾚ']);
        },
        'ロ' => {
            reveal_strlit("ﾛ");
            assert("ﾛ"@ =~= seq!['ﾛ']);
        },
        'ワ' => {
            reveal_strlit("ﾜ");
            assert("ﾜ"@ =~= seq!['ﾜ']);
        },
        'ン' => {
            reveal_strlit("ﾝ");
            assert("ﾝ"@ =~= seq!['ﾝ']);
        },
        'ガ' => {
            reveal_strlit("ｶﾞ");
            assert("ｶﾞ"@ =~= seq!['ｶ', 'ﾞ']);
        },
        'ギ' => {
            reveal_strlit("ｷﾞ");
            assert("ｷﾞ"@ =~= seq!['ｷ', 'ﾞ']);
        },
        'グ' => {
            reveal_strlit("ｸﾞ");
            assert("ｸﾞ"@ =~= seq!['ｸ', 'ﾞ']);
        },
        'ゲ' => {
            reveal_strlit("ｹﾞ");
            assert("ｹﾞ"@ =~= seq!['ｹ', 'ﾞ']);
        },
        'ゴ' => {
            reveal_strlit("ｺﾞ");
            assert("ｺﾞ"@ =~= seq!['ｺ', 'ﾞ']);
        },
        'ザ' => {
            reveal_strlit("ｻﾞ");
            assert("ｻﾞ"@ =~= seq!['ｻ', 'ﾞ']);
        },
        'ジ' => {
            reveal_strlit("ｼﾞ");
            assert("ｼﾞ"@ =~= seq!['ｼ', 'ﾞ']);
        },
        'ズ' => {
            reveal_strlit("ｽﾞ");
            assert("ｽﾞ"@ =~= seq!['ｽ', 'ﾞ']);
        },
        'ゼ' => {
            reveal_strlit("ｾﾞ");
            assert("ｾﾞ"@ =~= seq!['ｾ', 'ﾞ']);
        },
        'ゾ' => {
            reveal_strlit("ｿﾞ");
            assert("ｿﾞ"@ =~= seq!['ｿ', 'ﾞ']);
        },
        'ダ' => {
            reveal_strlit("ﾀﾞ");
            assert("ﾀﾞ"@ =~= seq!['ﾀ', 'ﾞ']);
        },
        'ヂ' => {
            reveal_strlit("ﾁﾞ");
            assert("ﾁﾞ"@ =~= seq!['ﾁ', 'ﾞ']);
        },
        'ヅ' => {
            reveal_strlit("ﾂﾞ");
            assert("ﾂﾞ"@ =~= seq!['ﾂ', 'ﾞ']);
        },
        'デ' => {
            reveal_strlit("ﾃﾞ");
            assert("ﾃﾞ"@ =~= seq!['ﾃ', 'ﾞ']);
        },
        'ド' => {
            reveal_strlit("ﾄﾞ");
            assert("ﾄﾞ"@ =~= seq!['ﾄ', 'ﾞ']);
        },
        'バ' => {
            reveal_strlit("ﾊﾞ");
            assert("ﾊﾞ"@ =~= seq!['ﾊ', 'ﾞ']);
        },
        'ビ' => {
            reveal_strlit("ﾋﾞ");
            assert("ﾋﾞ"@ =~= seq!['ﾋ', 'ﾞ']);
        },
        'ブ' => {
            reveal_strlit("ﾌﾞ");
            assert("ﾌﾞ"@ =~= seq!['ﾌ', 'ﾞ']);
        },
        'ベ' => {
            reveal_strlit("ﾍﾞ");
            assert("ﾍﾞ"@ =~= seq!['ﾍ', 'ﾞ']);
        },
        'ボ' => {
            reveal_strlit("ﾎﾞ");
            assert("ﾎﾞ"@ =~= seq!['ﾎ', 'ﾞ']);
        },
        'パ' => {
            reveal_strlit("ﾊﾟ");
            assert("ﾊﾟ"@ =~= seq!['ﾊ', 'ﾟ']);
        },
        'ピ' => {
            reveal_strlit("ﾋﾟ");
            assert("ﾋﾟ"@ =~= seq!['ﾋ', 'ﾟ']);
        },
        'プ' => {
            reveal_strlit("ﾌﾟ");
            assert("ﾌﾟ"@ =~= seq!['ﾌ', 'ﾟ']);
        },
        'ペ' => {
            reveal_strlit("ﾍﾟ");
            assert("ﾍﾟ"@ =~= seq!['ﾍ', 'ﾟ']);
        },
        'ポ' => {
            reveal_strlit("ﾎﾟ");
            assert("ﾎﾟ"@ =~= seq!['ﾎ', 'ﾟ']);
        },
        'ヴ' => {
            reveal_strlit("ｳﾞ");
            assert("ｳﾞ"@ =~= seq!['ｳ', 'ﾞ']);
        },
        _ => {},
    }
}

/// The half-width form loses nothing: two characters never have the same one.
pub proof fn half_forms_differ(a: char, b: char)
    requires
        editing::half_form(a) is Some,
        editing::half_form(a) == editing::half_form(b),
    ensures
        a == b,
{
    half_forms_read_back(a);
    half_forms_read_back(b);
    lemma_same_code(a, b);
}

proof fn lemma_same_code(a: char, b: char)
    ensures
        a as int == b as int ==> a == b,
{
}

/// A half-width letter with what stands behind it: the code point of what it stands for
/// in full width, and whether a mark for voicing belongs to it.
pub open spec fn full_with(h: int, next: int) -> (int, bool) {
    if next == 0xff9e && takes_voicing(h) {
        (voiced_code(h), true)
    } else if next == 0xff9f && takes_half_voicing(h) {
        (full_code(h) + 2, true)
    } else {
        (full_code(h), false)
    }
}

/// Half-width katakana in full width.
pub open spec fn in_full(s: Seq<char>) -> Seq<char>
    decreases s.len(),
{
    if s.len() == 0 {
        Seq::empty()
    } else if s[0] < '\u{ff61}' || s[0] > '\u{ff9d}' {
        seq![s[0]] + in_full(s.skip(1))
    } else {
        let next = if s.len() > 1 {
            s[1] as int
        } else {
            0
        };
        let (code, voiced) = full_with(s[0] as int, next);
        seq![(code as u32) as char] + in_full(
            s.skip(
                if voiced {
                    2
                } else {
                    1
                },
            ),
        )
    }
}

/// Whether a text is free of half-width katakana.
pub open spec fn no_half_katakana(s: Seq<char>) -> bool {
    forall|i: int| 0 <= i < s.len() ==> (#[trigger] s[i] < '\u{ff61}' || s[i] > '\u{ff9f}')
}

/// A letter is the character with its code point.
proof fn lemma_by_code(c: char, code: int)
    requires
        c as int == code,
    ensures
        (code as u32) as char == c,
{
}

/// What a character starts with in half width is no mark for voicing.
proof fn lemma_half_start(c: char)
    requires
        c < '\u{ff61}' || c > '\u{ff9f}',
    ensures
        ({
            let piece = editing::half_piece(c);
            &&& 1 <= piece.len() <= 2
            &&& piece[0] != '\u{ff9e}' && piece[0] != '\u{ff9f}'
            &&& editing::half_form(editing::as_katakana(c)) is None ==> piece.len() == 1
                && piece[0] == editing::as_katakana(c) && (piece[0] < '\u{ff61}' || piece[0]
                > '\u{ff9f}')
        }),
{
    half_forms_read_back(editing::as_katakana(c));
}

/// Half-width katakana read back as the katakana that they were made from: nothing is lost.
pub proof fn half_katakana_read_back(s: Seq<char>)
    requires
        no_half_katakana(s),
    ensures
        in_full(editing::half_pieces(s).flatten()) == editing::katakana_text(s),
    decreases s.len(),
{
    let pieces = editing::half_pieces(s);
    let text = pieces.flatten();
    if s.len() == 0 {
        assert(text =~= Seq::<char>::empty());
        assert(editing::katakana_text(s) =~= Seq::<char>::empty());
    } else {
        let rest = s.drop_first();
        assert forall|i: int| 0 <= i < rest.len() implies (#[trigger] rest[i] < '\u{ff61}' || rest[i]
            > '\u{ff9f}') by {
            assert(rest[i] == s[i + 1]);
        }
        half_katakana_read_back(rest);
        assert(pieces.drop_first() =~= editing::half_pieces(rest));
        let piece = editing::half_piece(s[0]);
        let later = editing::half_pieces(rest).flatten();
        assert(text == piece + later);
        assert(s[0] < '\u{ff61}' || s[0] > '\u{ff9f}');
        lemma_half_start(s[0]);
        let c = editing::as_katakana(s[0]);
        half_forms_read_back(c);
        if rest.len() > 0 {
            assert(rest[0] < '\u{ff61}' || rest[0] > '\u{ff9f}');
            lemma_half_start(rest[0]);
            let after = editing::half_pieces(rest);
            assert(after[0] == editing::half_piece(rest[0]));
            assert(later == after[0] + after.drop_first().flatten());
            assert(later[0] == after[0][0]);
        } else {
            assert(later =~= Seq::<char>::empty());
        }
        assert(text.skip(piece.len() as int) =~= later);
        assert(text[0] == piece[0]);
        if piece.len() == 2 {
            assert(text[1] == piece[1]);
        }
        if editing::half_form(c) is Some {
            let next = if text.len() > 1 {
                text[1] as int
            } else {
                0
            };
            lemma_by_code(c, full_with(text[0] as int, next).0);
        }
        assert(in_full(text) =~= seq![c] + in_full(later));
        assert(editing::katakana_text(s) =~= seq![c] + editing::katakana_text(rest));
    }
}

// ---------------------------------------------------------------------------
// Hiragana and katakana.

/// The kana forms change kana and nothing else: a letter of the other syllabary becomes
/// the one at the same place of this one, 96 code points away.
pub proof fn kana_forms_change_only_kana(s: Seq<char>, i: int)
    requires
        0 <= i < s.len(),
    ensures
        ({
            let h = editing::hiragana_text(s);
            let k = editing::katakana_text(s);
            &&& h.len() == s.len() && k.len() == s.len()
            &&& if 'ァ' <= s[i] && s[i] <= 'ヶ' {
                h[i] as int == s[i] as int - 96
            } else {
                h[i] == s[i]
            }
            &&& if 'ぁ' <= s[i] && s[i] <= 'ゖ' {
                k[i] as int == s[i] as int + 96
            } else {
                k[i] == s[i]
            }
        }),
{
    lemma_kana_codes(s[i]);
}

proof fn lemma_kana_codes(c: char)
    ensures
        'ァ' <= c && c <= 'ヶ' ==> editing::as_hiragana(c) as int == c as int - 96,
        'ぁ' <= c && c <= 'ゖ' ==> editing::as_katakana(c) as int == c as int + 96,
{
}

// ---------------------------------------------------------------------------
// Letters and digits.

/// A letter or digit whatever its case and width, as a number.
pub open spec fn folded(c: char) -> int {
    let half = if '！' <= c && c <= '～' {
        c as int - 0xfee0
    } else if c == '\u{3000}' {
        ' ' as int
    } else {
        c as int
    };
    if 'A' as int <= half <= 'Z' as int {
        half + 32
    } else {
        half
    }
}

/// Whether there is an ASCII letter before `i`.
pub open spec fn letter_before(s: Seq<char>, i: int) -> bool {
    exists|j: int|
        0 <= j < i && (('a' <= #[trigger] s[j] && s[j] <= 'z') || ('A' <= s[j] && s[j] <= 'Z'))
}

/// The alphanumeric forms keep every letter but for its case and its width: ASCII comes out
/// in the width that is asked for, and letters small, in capitals, or with the first one as
/// a capital, as the cycle has it.
pub proof fn alphanumeric_forms_change_case_and_width(s: Seq<char>, cycle: u8, i: int)
    requires
        0 <= i < s.len(),
        ' ' <= s[i],
        s[i] <= '~',
    ensures
        ({
            let full = editing::alnum_text(s, cycle, true);
            let half = editing::alnum_text(s, cycle, false);
            let is_letter = ('a' <= s[i] && s[i] <= 'z') || ('A' <= s[i] && s[i] <= 'Z');
            let capital = cycle % 3 == 1 || (cycle % 3 == 2 && !letter_before(s, i));
            &&& full.len() == s.len() && half.len() == s.len()
            &&& folded(full[i]) == folded(s[i])
            &&& folded(half[i]) == folded(s[i])
            &&& ' ' <= half[i] && half[i] <= '~'
            &&& full[i] == '\u{3000}' || ('！' <= full[i] && full[i] <= '～')
            &&& is_letter ==> ('A' <= half[i] && half[i] <= 'Z') == capital
            &&& is_letter ==> ('Ａ' <= full[i] && full[i] <= 'Ｚ') == capital
            &&& !is_letter ==> half[i] == s[i]
        }),
{
    let first = editing::no_letter_before(s, i);
    assert(first == !letter_before(s, i));
    lemma_cased(s[i], cycle, first);
}

proof fn lemma_cased(c: char, cycle: u8, first: bool)
    requires
        ' ' <= c,
        c <= '~',
    ensures
        ({
            let x = editing::cased(c, cycle, first);
            let full = editing::full_width(x);
            let half = editing::half_width(x);
            let is_letter = ('a' <= c && c <= 'z') || ('A' <= c && c <= 'Z');
            let capital = cycle % 3 == 1 || (cycle % 3 == 2 && first);
            &&& folded(full) == folded(c)
            &&& folded(half) == folded(c)
            &&& ' ' <= half && half <= '~'
            &&& full == '\u{3000}' || ('！' <= full && full <= '～')
            &&& is_letter ==> ('A' <= half && half <= 'Z') == capital
            &&& is_letter ==> ('Ａ' <= full && full <= 'Ｚ') == capital
            &&& !is_letter ==> half == c
        }),
{
}

// ---------------------------------------------------------------------------
// Identifiers.

/// A letter or a digit.
pub open spec fn in_word(c: char) -> bool {
    ('a' <= c && c <= 'z') || ('A' <= c && c <= 'Z') || ('0' <= c && c <= '9')
}

/// Whether a word starts at `i`: at a letter or a digit that follows none, or at a capital
/// letter that follows a small one.
pub open spec fn word_starts(s: Seq<char>, i: int) -> bool {
    &&& 0 <= i < s.len()
    &&& in_word(s[i])
    &&& i == 0 || !in_word(s[i - 1]) || ('a' <= s[i - 1] && s[i - 1] <= 'z' && 'A' <= s[i] && s[i]
        <= 'Z')
}

/// Whether a word is one of a text: it starts where a word starts, no other starts in it,
/// and it ends where it cannot go on.
pub open spec fn is_word(s: Seq<char>, a: int, b: int) -> bool {
    &&& 0 <= a < b <= s.len()
    &&& word_starts(s, a)
    &&& forall|k: int| a <= k < b ==> in_word(#[trigger] s[k])
    &&& forall|k: int| a < k < b ==> !#[trigger] word_starts(s, k)
    &&& b < s.len() ==> !in_word(s[b]) || word_starts(s, b)
}

proof fn lemma_word_end(s: Seq<char>, a: int, i: int)
    requires
        0 <= a < i <= s.len(),
        word_starts(s, a),
        forall|k: int| a <= k < i ==> in_word(#[trigger] s[k]),
        forall|k: int| a < k < i ==> !#[trigger] word_starts(s, k),
    ensures
        is_word(s, a, editing::word_end(s, i)),
        i <= editing::word_end(s, i) <= s.len(),
    decreases s.len() - i,
{
    if i < s.len() && editing::word_char(s[i]) && !editing::hump(s, i) {
        assert(in_word(s[i - 1]));
        lemma_word_end(s, a, i + 1);
    } else if i < s.len() {
        assert(in_word(s[i - 1]));
    }
}

/// The words of a text from a place on that no word goes past.
proof fn lemma_words(s: Seq<char>, i: int)
    requires
        0 <= i <= s.len(),
        i == 0 || i == s.len() || !in_word(s[i - 1]) || !in_word(s[i]) || word_starts(s, i),
    ensures
        ({
            let all = editing::words_from(s, i);
            &&& forall|k: int|
                0 <= k < all.len() ==> is_word(s, (#[trigger] all[k]).0, all[k].1) && i
                    <= all[k].0
            &&& forall|j: int, k: int|
                0 <= j < k < all.len() ==> (#[trigger] all[j]).1 <= (#[trigger] all[k]).0
            &&& forall|p: int|
                i <= p < s.len() && #[trigger] word_starts(s, p) ==> exists|k: int|
                    0 <= k < all.len() && (#[trigger] all[k]).0 == p
        }),
    decreases s.len() - i,
{
    let all = editing::words_from(s, i);
    if i >= s.len() {
    } else if !editing::word_char(s[i]) {
        lemma_words(s, i + 1);
        assert(!word_starts(s, i));
        assert(all == editing::words_from(s, i + 1));
        assert forall|p: int| i <= p < s.len() && #[trigger] word_starts(s, p) implies exists|k: int|
            0 <= k < all.len() && (#[trigger] all[k]).0 == p by {
            assert(p != i);
            assert(i + 1 <= p);
        }
    } else {
        assert(word_starts(s, i));
        lemma_word_end(s, i, i + 1);
        let end = editing::word_end(s, i + 1);
        lemma_words(s, end);
        let rest = editing::words_from(s, end);
        assert(all =~= seq![(i, end)] + rest);
        assert forall|k: int| 0 <= k < all.len() implies is_word(s, (#[trigger] all[k]).0, all[k].1)
            && i <= all[k].0 by {
            if k > 0 {
                assert(all[k] == rest[k - 1]);
            }
        }
        assert forall|j: int, k: int| 0 <= j < k < all.len() implies (#[trigger] all[j]).1 <= (
        #[trigger] all[k]).0 by {
            assert(all[k] == rest[k - 1]);
            if j > 0 {
                assert(all[j] == rest[j - 1]);
            }
        }
        assert forall|p: int| i <= p < s.len() && #[trigger] word_starts(s, p) implies exists|k: int|
            0 <= k < all.len() && (#[trigger] all[k]).0 == p by {
            if p == i {
                assert(all[0].0 == p);
            } else if p >= end {
                let k = choose|k: int| 0 <= k < rest.len() && (#[trigger] rest[k]).0 == p;
                assert(all[k + 1].0 == p);
            }
        }
    }
}

/// The words of a text are its runs of letters and digits, parted where a capital follows a
/// small letter: each is one, they come in order without an overlap, and where there are no
/// more than 32 of them none is left out.
pub proof fn words_are_runs(s: Seq<char>)
    ensures
        ({
            let all = editing::words(s);
            &&& all.len() <= 32
            &&& forall|k: int| 0 <= k < all.len() ==> is_word(s, (#[trigger] all[k]).0, all[k].1)
            &&& forall|j: int, k: int|
                0 <= j < k < all.len() ==> (#[trigger] all[j]).1 <= (#[trigger] all[k]).0
            &&& all.len() < 32 ==> forall|p: int|
                #[trigger] word_starts(s, p) ==> exists|k: int|
                    0 <= k < all.len() && (#[trigger] all[k]).0 == p
            &&& forall|p: int|
                #[trigger] word_starts(s, p) && all.len() > 0 && p <= all.last().0 ==> exists|
                    k: int,
                |
                    0 <= k < all.len() && (#[trigger] all[k]).0 == p
        }),
{
    lemma_words(s, 0);
    let every = editing::words_from(s, 0);
    let all = editing::words(s);
    assert forall|k: int| 0 <= k < all.len() implies all[k] == every[k] by {}
    assert forall|p: int|
        #[trigger] word_starts(s, p) && all.len() > 0 && p <= all.last().0 implies exists|k: int|
        0 <= k < all.len() && (#[trigger] all[k]).0 == p by {
        let k = choose|k: int| 0 <= k < every.len() && (#[trigger] every[k]).0 == p;
        let last = all.len() - 1;
        if k > last {
            assert(every[last].1 <= every[k].0);
            assert(is_word(s, every[last].0, every[last].1));
        }
        assert(all[k] == every[k]);
    }
}

/// The small letter for a capital one.
pub open spec fn little(c: char) -> int {
    if 'A' <= c && c <= 'Z' {
        c as int + 32
    } else {
        c as int
    }
}

/// The length of an identifier: its words, and what stands between them.
pub open spec fn identifier_len(all: Seq<(int, int)>, n: int, gap: int) -> int
    decreases n,
{
    if n <= 0 {
        0
    } else {
        identifier_len(all, n - 1, gap) + (all[n - 1].1 - all[n - 1].0) + (if n > 1 {
            gap
        } else {
            0
        })
    }
}

/// What stands between two words of an identifier: nothing in camel case, an underscore in
/// snake case, and a hyphen in kebab case.
pub open spec fn gap_of(style: IdentifierStyle) -> Seq<char> {
    match style {
        IdentifierStyle::Camel => Seq::empty(),
        IdentifierStyle::Snake => seq!['_'],
        IdentifierStyle::ScreamingSnake => seq!['_'],
        IdentifierStyle::Kebab => seq!['-'],
    }
}

/// Whether a letter of an identifier is a capital: all of them in screaming snake case, and
/// in camel case the first one of each word but the first.
pub open spec fn is_capital(style: IdentifierStyle, word: int, k: int) -> bool {
    match style {
        IdentifierStyle::Camel => word > 0 && k == 0,
        IdentifierStyle::Snake => false,
        IdentifierStyle::ScreamingSnake => true,
        IdentifierStyle::Kebab => false,
    }
}

/// Each word of an identifier stands in its place with the letters of the word, small or as
/// capitals as the style has it, and between two words stands what the style has there.
pub proof fn identifiers_are_their_words(
    s: Seq<char>,
    all: Seq<(int, int)>,
    n: int,
    style: IdentifierStyle,
    word: int,
)
    requires
        0 <= word < n <= all.len(),
        forall|k: int| 0 <= k < all.len() ==> is_word(s, (#[trigger] all[k]).0, all[k].1),
    ensures
        ({
            let name = editing::identifier_of(s, all, n, style);
            let gap = gap_of(style);
            let (a, b) = all[word];
            let at = identifier_len(all, word + 1, gap.len() as int) - (b - a);
            &&& name.len() == identifier_len(all, n, gap.len() as int)
            &&& 0 <= at && at + (b - a) <= name.len()
            &&& forall|k: int|
                0 <= k < b - a ==> little(#[trigger] name[at + k]) == little(s[a + k]) && (('a'
                    <= name[at + k] && name[at + k] <= 'z') ==> !is_capital(style, word, k)) && (('A'
                    <= name[at + k] && name[at + k] <= 'Z') ==> is_capital(style, word, k))
            &&& word > 0 ==> at >= gap.len() && name.subrange(at - gap.len(), at) == gap
        }),
    decreases n,
{
    let gap = gap_of(style);
    let g = gap.len() as int;
    let name = editing::identifier_of(s, all, n, style);
    let before = editing::identifier_of(s, all, n - 1, style);
    let (a, b) = all[n - 1];
    assert(is_word(s, a, b));
    let last = editing::identifier_word(s, (a, b), style, n == 1);
    assert(last.len() == b - a);
    assert(gap =~= editing::separator(style));
    lemma_identifier_len(s, all, n, style);
    if n > 1 {
        lemma_identifier_len(s, all, n - 1, style);
        assert(name == before + gap + last);
    } else {
        assert(name == last);
    }
    if word < n - 1 {
        identifiers_are_their_words(s, all, n - 1, style, word);
        let (c, d) = all[word];
        assert(is_word(s, c, d));
        let at = identifier_len(all, word + 1, g) - (d - c);
        assert(0 <= at && at + (d - c) <= before.len());
        assert forall|k: int| 0 <= k < d - c implies little(#[trigger] name[at + k]) == little(
            s[c + k],
        ) && (('a' <= name[at + k] && name[at + k] <= 'z') ==> !is_capital(style, word, k)) && (('A'
            <= name[at + k] && name[at + k] <= 'Z') ==> is_capital(style, word, k)) by {
            assert(name[at + k] == before[at + k]);
        }
        if word > 0 {
            assert(name.subrange(at - g, at) =~= before.subrange(at - g, at));
        }
    } else {
        let at = name.len() - (b - a);
        assert(identifier_len(all, word + 1, g) - (b - a) == at);
        assert forall|k: int| 0 <= k < b - a implies little(#[trigger] name[at + k]) == little(
            s[a + k],
        ) && (('a' <= name[at + k] && name[at + k] <= 'z') ==> !is_capital(style, word, k)) && (('A'
            <= name[at + k] && name[at + k] <= 'Z') ==> is_capital(style, word, k)) by {
            assert(name[at + k] == last[k]);
            assert(in_word(s[a + k]));
            lemma_identifier_char(s[a + k], style, n != 1 && k == 0);
        }
        if word > 0 {
            assert(at == before.len() + g);
            assert(name.subrange(at - g, at) =~= gap);
        }
    }
}

/// How long an identifier is.
proof fn lemma_identifier_len(s: Seq<char>, all: Seq<(int, int)>, n: int, style: IdentifierStyle)
    requires
        0 <= n <= all.len(),
        forall|k: int| 0 <= k < all.len() ==> is_word(s, (#[trigger] all[k]).0, all[k].1),
    ensures
        editing::identifier_of(s, all, n, style).len() == identifier_len(
            all,
            n,
            gap_of(style).len() as int,
        ),
    decreases n,
{
    if n > 0 {
        lemma_identifier_len(s, all, n - 1, style);
        assert(is_word(s, all[n - 1].0, all[n - 1].1));
    }
}

proof fn lemma_identifier_char(c: char, style: IdentifierStyle, capital: bool)
    requires
        in_word(c),
    ensures
        ({
            let x = editing::identifier_char(c, style, capital);
            let big = style is ScreamingSnake || (style is Camel && capital);
            &&& little(x) == little(c)
            &&& 'a' <= x && x <= 'z' ==> !big
            &&& 'A' <= x && x <= 'Z' ==> big
        }),
{
}

/// A text makes an identifier where it is ASCII and has a letter or a digit in it, and then
/// of all its words.
pub proof fn ascii_words_make_an_identifier(s: Seq<char>, style: IdentifierStyle)
    ensures
        editing::identifier(s, style) is Some <==> (forall|i: int|
            0 <= i < s.len() ==> #[trigger] s[i] <= '\u{7f}') && (exists|i: int|
            0 <= i < s.len() && in_word(#[trigger] s[i])),
        editing::identifier(s, style) matches Some(name) ==> name == editing::identifier_of(
            s,
            editing::words(s),
            editing::words(s).len() as int,
            style,
        ) && editing::words(s).len() > 0,
{
    lemma_words(s, 0);
    let all = editing::words_from(s, 0);
    if exists|i: int| 0 <= i < s.len() && in_word(#[trigger] s[i]) {
        let i = choose|i: int| 0 <= i < s.len() && in_word(#[trigger] s[i]);
        lemma_some_word(s, i);
    } else if all.len() > 0 {
        assert(is_word(s, all[0].0, all[0].1));
    }
    if forall|i: int| 0 <= i < s.len() ==> #[trigger] s[i] <= '\u{7f}' {
        assert forall|i: int| 0 <= i < s.len() implies (#[trigger] s[i] as u32) < 128 by {
            lemma_ascii(s[i]);
        }
    }
    if editing::ascii_only(s) {
        assert forall|i: int| 0 <= i < s.len() implies #[trigger] s[i] <= '\u{7f}' by {
            lemma_ascii(s[i]);
        }
    }
}

proof fn lemma_ascii(c: char)
    ensures
        c <= '\u{7f}' <==> (c as u32) < 128,
{
}

/// Some word starts at or before a letter or a digit.
proof fn lemma_some_word(s: Seq<char>, i: int)
    requires
        0 <= i < s.len(),
        in_word(s[i]),
    ensures
        exists|p: int| 0 <= p <= i && #[trigger] word_starts(s, p),
    decreases i,
{
    if !word_starts(s, i) {
        lemma_some_word(s, i - 1);
    }
}

// ---------------------------------------------------------------------------
// Forms of a segment.

proof fn lemma_singles(s: Seq<char>)
    ensures
        editing::singles(s).flatten() == s,
    decreases s.len(),
{
    let pieces = editing::singles(s);
    if s.len() == 0 {
        assert(pieces.flatten() =~= s);
    } else {
        lemma_singles(s.drop_first());
        assert(pieces.drop_first() =~= editing::singles(s.drop_first()));
        assert(pieces[0] =~= seq![s[0]]);
        assert(pieces.flatten() =~= s);
    }
}

/// Every form of a segment is the one that was asked for, and of the right text: the kana
/// forms are those of the segment, and the alphanumeric ones those of the keys.
pub proof fn segments_take_the_form_that_is_asked_for(
    source: Seq<char>,
    keys: Seq<char>,
    transform: SegmentTransform,
    cycle: u8,
)
    ensures
        ({
            let form = editing::transformed(source, keys, transform, cycle).flatten();
            match transform {
                SegmentTransform::Unchanged => form == source,
                SegmentTransform::Hiragana => form == editing::hiragana_text(source),
                SegmentTransform::Katakana => form == editing::katakana_text(source),
                SegmentTransform::HalfKatakana => no_half_katakana(source) ==> in_full(form)
                    == editing::katakana_text(source),
                SegmentTransform::FullAlnum => form == editing::alnum_text(keys, cycle, true),
                SegmentTransform::HalfAlnum => form == editing::alnum_text(keys, cycle, false),
            }
        }),
{
    match transform {
        SegmentTransform::Unchanged => {
            seq![source].lemma_flatten_one_element();
        },
        SegmentTransform::Hiragana => {
            lemma_singles(editing::hiragana_text(source));
        },
        SegmentTransform::Katakana => {
            lemma_singles(editing::katakana_text(source));
        },
        SegmentTransform::HalfKatakana => {
            if no_half_katakana(source) {
                half_katakana_read_back(source);
            }
        },
        SegmentTransform::FullAlnum => {
            lemma_singles(editing::alnum_text(keys, cycle, true));
        },
        SegmentTransform::HalfAlnum => {
            lemma_singles(editing::alnum_text(keys, cycle, false));
        },
    }
}

} // verus!
