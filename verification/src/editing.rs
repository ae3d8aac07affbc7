//! The forms of a segment, and identifiers out of words.

use crate::input_repair::kana;
use crate::input_repair::kana::{is_ascii_digit, is_ascii_letter, is_hiragana, is_katakana, to_lower};
use crate::strings;
use crate::text;
use crate::text::{write_chars, write_pieces, TextSink};
use crate::values::Overflow;
use vstd::prelude::*;

verus! {

/// A form of a segment.
#[derive(Debug, Clone, Copy, PartialEq, Eq, Structural)]
pub enum SegmentTransform {
    Unchanged,
    Hiragana,
    Katakana,
    HalfKatakana,
    FullAlnum,
    HalfAlnum,
}

impl Default for SegmentTransform {
    fn default() -> (r: Self)
        ensures
            r == SegmentTransform::Unchanged,
    {
        SegmentTransform::Unchanged
    }
}

/// A way to write words as one identifier.
#[derive(Debug, Clone, Copy, PartialEq, Eq, Structural)]
pub enum IdentifierStyle {
    Camel,
    Snake,
    ScreamingSnake,
    Kebab,
}

impl IdentifierStyle {
    /// Every way, in order.
    pub const ALL: [IdentifierStyle; 4] = [
        IdentifierStyle::Camel,
        IdentifierStyle::Snake,
        IdentifierStyle::ScreamingSnake,
        IdentifierStyle::Kebab,
    ];

    /// What the way is called.
    pub open spec fn annotation_of(self) -> Seq<char> {
        match self {
            IdentifierStyle::Camel => "camelCase"@,
            IdentifierStyle::Snake => "snake_case"@,
            IdentifierStyle::ScreamingSnake => "SCREAMING_SNAKE"@,
            IdentifierStyle::Kebab => "kebab-case"@,
        }
    }

    /// What the way is called.
    pub fn annotation(self) -> (s: &'static str)
        ensures
            s@ == self.annotation_of(),
    {
        match self {
            IdentifierStyle::Camel => "camelCase",
            IdentifierStyle::Snake => "snake_case",
            IdentifierStyle::ScreamingSnake => "SCREAMING_SNAKE",
            IdentifierStyle::Kebab => "kebab-case",
        }
    }
}

// ---------------------------------------------------------------------------
// Characters.

/// A katakana letter as the hiragana one.
pub open spec fn as_hiragana(c: char) -> char {
    if kana::katakana(c) {
        (c as u32 - 0x60) as char
    } else {
        c
    }
}

/// A katakana letter as the hiragana one.
pub fn hiragana_char(c: char) -> (r: char)
    ensures
        r == as_hiragana(c),
{
    if is_katakana(c) {
        match strings::char_from_u32(c as u32 - 0x60) {
            Some(r) => r,
            None => c,
        }
    } else {
        c
    }
}

/// A hiragana letter as the katakana one.
pub open spec fn as_katakana(c: char) -> char {
    if kana::hiragana(c) {
        (c as u32 + 0x60) as char
    } else {
        c
    }
}

/// A hiragana letter as the katakana one.
pub fn katakana_char(c: char) -> (r: char)
    ensures
        r == as_katakana(c),
{
    if is_hiragana(c) {
        match strings::char_from_u32(c as u32 + 0x60) {
            Some(r) => r,
            None => c,
        }
    } else {
        c
    }
}

/// The half-width form of a katakana letter or mark. A voiced letter takes a mark of
/// its own.
pub open spec fn half_form(c: char) -> Option<Seq<char>> {
    match c {
        '。' => Some("｡"@),
        '「' => Some("｢"@),
        '」' => Some("｣"@),
        '、' => Some("､"@),
        '・' => Some("･"@),
        'ヲ' => Some("ｦ"@),
        'ァ' => Some("ｧ"@),
        'ィ' => Some("ｨ"@),
        'ゥ' => Some("ｩ"@),
        'ェ' => Some("ｪ"@),
        'ォ' => Some("ｫ"@),
        'ャ' => Some("ｬ"@),
        'ュ' => Some("ｭ"@),
        'ョ' => Some("ｮ"@),
        'ッ' => Some("ｯ"@),
        'ー' => Some("ｰ"@),
        'ア' => Some("ｱ"@),
        'イ' => Some("ｲ"@),
        'ウ' => Some("ｳ"@),
        'エ' => Some("ｴ"@),
        'オ' => Some("ｵ"@),
        'カ' => Some("ｶ"@),
        'キ' => Some("ｷ"@),
        'ク' => Some("ｸ"@),
        'ケ' => Some("ｹ"@),
        'コ' => Some("ｺ"@),
        'サ' => Some("ｻ"@),
        'シ' => Some("ｼ"@),
        'ス' => Some("ｽ"@),
        'セ' => Some("ｾ"@),
        'ソ' => Some("ｿ"@),
        'タ' => Some("ﾀ"@),
        'チ' => Some("ﾁ"@),
        'ツ' => Some("ﾂ"@),
        'テ' => Some("ﾃ"@),
        'ト' => Some("ﾄ"@),
        'ナ' => Some("ﾅ"@),
        'ニ' => Some("ﾆ"@),
        'ヌ' => Some("ﾇ"@),
        'ネ' => Some("ﾈ"@),
        'ノ' => Some("ﾉ"@),
        'ハ' => Some("ﾊ"@),
        'ヒ' => Some("ﾋ"@),
        'フ' => Some("ﾌ"@),
        'ヘ' => Some("ﾍ"@),
        'ホ' => Some("ﾎ"@),
        'マ' => Some("ﾏ"@),
        'ミ' => Some("ﾐ"@),
        'ム' => Some("ﾑ"@),
        'メ' => Some("ﾒ"@),
        'モ' => Some("ﾓ"@),
        'ヤ' => Some("ﾔ"@),
        'ユ' => Some("ﾕ"@),
        'ヨ' => Some("ﾖ"@),
        'ラ' => Some("ﾗ"@),
        'リ' => Some("ﾘ"@),
        'ル' => Some("ﾙ"@),
        'レ' => Some("ﾚ"@),
        'ロ' => Some("ﾛ"@),
        'ワ' => Some("ﾜ"@),
        'ン' => Some("ﾝ"@),
        'ガ' => Some("ｶﾞ"@),
        'ギ' => Some("ｷﾞ"@),
        'グ' => Some("ｸﾞ"@),
        'ゲ' => Some("ｹﾞ"@),
        'ゴ' => Some("ｺﾞ"@),
        'ザ' => Some("ｻﾞ"@),
        'ジ' => Some("ｼﾞ"@),
        'ズ' => Some("ｽﾞ"@),
        'ゼ' => Some("ｾﾞ"@),
        'ゾ' => Some("ｿﾞ"@),
        'ダ' => Some("ﾀﾞ"@),
        'ヂ' => Some("ﾁﾞ"@),
        'ヅ' => Some("ﾂﾞ"@),
        'デ' => Some("ﾃﾞ"@),
        'ド' => Some("ﾄﾞ"@),
        'バ' => Some("ﾊﾞ"@),
        'ビ' => Some("ﾋﾞ"@),
        'ブ' => Some("ﾌﾞ"@),
        'ベ' => Some("ﾍﾞ"@),
        'ボ' => Some("ﾎﾞ"@),
        'パ' => Some("ﾊﾟ"@),
        'ピ' => Some("ﾋﾟ"@),
        'プ' => Some("ﾌﾟ"@),
        'ペ' => Some("ﾍﾟ"@),
        'ポ' => Some("ﾎﾟ"@),
        'ヴ' => Some("ｳﾞ"@),
        _ => None,
    }
}

/// The half-width form of a katakana letter or mark.
pub fn half_katakana(c: char) -> (r: Option<&'static str>)
    ensures
        match half_form(c) {
            Some(s) => r matches Some(t) && t@ == s,
            None => r is None,
        },
{
    match c {
        '。' => Some("｡"),
        '「' => Some("｢"),
        '」' => Some("｣"),
        '、' => Some("､"),
        '・' => Some("･"),
        'ヲ' => Some("ｦ"),
        'ァ' => Some("ｧ"),
        'ィ' => Some("ｨ"),
        'ゥ' => Some("ｩ"),
        'ェ' => Some("ｪ"),
        'ォ' => Some("ｫ"),
        'ャ' => Some("ｬ"),
        'ュ' => Some("ｭ"),
        'ョ' => Some("ｮ"),
        'ッ' => Some("ｯ"),
        'ー' => Some("ｰ"),
        'ア' => Some("ｱ"),
        'イ' => Some("ｲ"),
        'ウ' => Some("ｳ"),
        'エ' => Some("ｴ"),
        'オ' => Some("ｵ"),
        'カ' => Some("ｶ"),
        'キ' => Some("ｷ"),
        'ク' => Some("ｸ"),
        'ケ' => Some("ｹ"),
        'コ' => Some("ｺ"),
        'サ' => Some("ｻ"),
        'シ' => Some("ｼ"),
        'ス' => Some("ｽ"),
        'セ' => Some("ｾ"),
        'ソ' => Some("ｿ"),
        'タ' => Some("ﾀ"),
        'チ' => Some("ﾁ"),
        'ツ' => Some("ﾂ"),
        'テ' => Some("ﾃ"),
        'ト' => Some("ﾄ"),
        'ナ' => Some("ﾅ"),
        'ニ' => Some("ﾆ"),
        'ヌ' => Some("ﾇ"),
        'ネ' => Some("ﾈ"),
        'ノ' => Some("ﾉ"),
        'ハ' => Some("ﾊ"),
        'ヒ' => Some("ﾋ"),
        'フ' => Some("ﾌ"),
        'ヘ' => Some("ﾍ"),
        'ホ' => Some("ﾎ"),
        'マ' => Some("ﾏ"),
        'ミ' => Some("ﾐ"),
        'ム' => Some("ﾑ"),
        'メ' => Some("ﾒ"),
        'モ' => Some("ﾓ"),
        'ヤ' => Some("ﾔ"),
        'ユ' => Some("ﾕ"),
        'ヨ' => Some("ﾖ"),
        'ラ' => Some("ﾗ"),
        'リ' => Some("ﾘ"),
        'ル' => Some("ﾙ"),
        'レ' => Some("ﾚ"),
        'ロ' => Some("ﾛ"),
        'ワ' => Some("ﾜ"),
        'ン' => Some("ﾝ"),
        'ガ' => Some("ｶﾞ"),
        'ギ' => Some("ｷﾞ"),
        'グ' => Some("ｸﾞ"),
        'ゲ' => Some("ｹﾞ"),
        'ゴ' => Some("ｺﾞ"),
        'ザ' => Some("ｻﾞ"),
        'ジ' => Some("ｼﾞ"),
        'ズ' => Some("ｽﾞ"),
        'ゼ' => Some("ｾﾞ"),
        'ゾ' => Some("ｿﾞ"),
        'ダ' => Some("ﾀﾞ"),
        'ヂ' => Some("ﾁﾞ"),
        'ヅ' => Some("ﾂﾞ"),
        'デ' => Some("ﾃﾞ"),
        'ド' => Some("ﾄﾞ"),
        'バ' => Some("ﾊﾞ"),
        'ビ' => Some("ﾋﾞ"),
        'ブ' => Some("ﾌﾞ"),
        'ベ' => Some("ﾍﾞ"),
        'ボ' => Some("ﾎﾞ"),
        'パ' => Some("ﾊﾟ"),
        'ピ' => Some("ﾋﾟ"),
        'プ' => Some("ﾌﾟ"),
        'ペ' => Some("ﾍﾟ"),
        'ポ' => Some("ﾎﾟ"),
        'ヴ' => Some("ｳﾞ"),
        _ => None,
    }
}

/// An ASCII letter in upper case.
pub open spec fn upper(c: char) -> char {
    if 'a' <= c && c <= 'z' {
        (c as u32 - 32) as char
    } else {
        c
    }
}

/// An ASCII letter in upper case.
fn to_upper(c: char) -> (r: char)
    ensures
        r == upper(c),
{
    if 'a' <= c && c <= 'z' {
        ((c as u8) - 32) as char
    } else {
        c
    }
}

/// An ASCII character in full width.
pub open spec fn full_width(c: char) -> char {
    if c == ' ' {
        '\u{3000}'
    } else if '!' <= c && c <= '~' {
        (c as u32 + 0xfee0) as char
    } else {
        c
    }
}

/// An ASCII character in full width.
pub(crate) fn to_full_width(c: char) -> (r: char)
    ensures
        r == full_width(c),
{
    if c == ' ' {
        '\u{3000}'
    } else if '!' <= c && c <= '~' {
        match strings::char_from_u32(c as u32 + 0xfee0) {
            Some(r) => r,
            None => c,
        }
    } else {
        c
    }
}

/// A full-width ASCII character in half width.
pub open spec fn half_width(c: char) -> char {
    if c == '\u{3000}' {
        ' '
    } else if '\u{ff01}' <= c && c <= '\u{ff5e}' {
        (c as u32 - 0xfee0) as char
    } else {
        c
    }
}

/// A full-width ASCII character in half width.
fn to_half_width(c: char) -> (r: char)
    ensures
        r == half_width(c),
{
    if c == '\u{3000}' {
        ' '
    } else if '\u{ff01}' <= c && c <= '\u{ff5e}' {
        match strings::char_from_u32(c as u32 - 0xfee0) {
            Some(r) => r,
            None => c,
        }
    } else {
        c
    }
}

// ---------------------------------------------------------------------------
// Forms of a segment.

/// A text in hiragana.
pub open spec fn hiragana_text(s: Seq<char>) -> Seq<char> {
    Seq::new(s.len(), |i: int| as_hiragana(s[i]))
}

/// A text in katakana.
pub open spec fn katakana_text(s: Seq<char>) -> Seq<char> {
    Seq::new(s.len(), |i: int| as_katakana(s[i]))
}

/// A character in half-width katakana.
pub open spec fn half_piece(c: char) -> Seq<char> {
    match half_form(as_katakana(c)) {
        Some(s) => s,
        None => seq![as_katakana(c)],
    }
}

/// The pieces of a text in half-width katakana.
pub open spec fn half_pieces(s: Seq<char>) -> Seq<Seq<char>> {
    Seq::new(s.len(), |i: int| half_piece(s[i]))
}

/// Whether there is no ASCII letter before `i`.
pub open spec fn no_letter_before(s: Seq<char>, i: int) -> bool {
    forall|j: int| 0 <= j < i ==> !kana::ascii_letter(#[trigger] s[j])
}

/// A character in the case of a cycle: lower, upper, and upper for the first letter
/// only.
pub open spec fn cased(c: char, case_cycle: u8, first: bool) -> char {
    if !kana::ascii_letter(c) {
        c
    } else if case_cycle % 3 == 0 {
        kana::lower(c)
    } else if case_cycle % 3 == 1 || first {
        upper(c)
    } else {
        kana::lower(c)
    }
}

/// What was typed, in a case and a width.
pub open spec fn alnum_text(s: Seq<char>, case_cycle: u8, full: bool) -> Seq<char> {
    Seq::new(
        s.len(),
        |i: int|
            {
                let c = cased(s[i], case_cycle, no_letter_before(s, i));
                if full {
                    full_width(c)
                } else {
                    half_width(c)
                }
            },
    )
}

/// The pieces of a text, character by character.
pub open spec fn singles(s: Seq<char>) -> Seq<Seq<char>> {
    s.map_values(|c: char| seq![c])
}

/// The pieces of a form of a segment.
pub open spec fn transformed(
    source: Seq<char>,
    raw_romaji: Seq<char>,
    transform: SegmentTransform,
    case_cycle: u8,
) -> Seq<Seq<char>> {
    match transform {
        SegmentTransform::Unchanged => seq![source],
        SegmentTransform::Hiragana => singles(hiragana_text(source)),
        SegmentTransform::Katakana => singles(katakana_text(source)),
        SegmentTransform::HalfKatakana => half_pieces(source),
        SegmentTransform::FullAlnum => singles(alnum_text(raw_romaji, case_cycle, true)),
        SegmentTransform::HalfAlnum => singles(alnum_text(raw_romaji, case_cycle, false)),
    }
}

/// Writes a form of a segment. The alphanumeric forms are those of what was typed,
/// and the others those of the segment.
pub fn transform_into<S: TextSink>(
    source: &str,
    raw_romaji: &str,
    transform: SegmentTransform,
    case_cycle: u8,
    sink: &mut S,
) -> (r: Result<(), Overflow>)
    ensures
        (*final(sink)).limit() == (*old(sink)).limit(),
        ({
            let (after, all) = text::written(
                (*old(sink)).limit(),
                (*old(sink)).text(),
                transformed(source@, raw_romaji@, transform, case_cycle),
            );
            (*final(sink)).text() == after && r is Ok == all
        }),
{
    match transform {
        SegmentTransform::Unchanged => {
            let pieces: Vec<String> = vec![source.to_owned()];
            assert(text::pieces_of(pieces@) =~= seq![source@]);
            write_pieces(sink, &pieces)
        },
        SegmentTransform::Hiragana => write_hiragana(source, sink),
        SegmentTransform::Katakana => write_katakana(source, sink),
        SegmentTransform::HalfKatakana => write_half_katakana(source, sink),
        SegmentTransform::FullAlnum => write_alnum(raw_romaji, case_cycle, true, sink),
        SegmentTransform::HalfAlnum => write_alnum(raw_romaji, case_cycle, false, sink),
    }
}

/// Writes a text in hiragana.
pub fn write_hiragana<S: TextSink>(source: &str, sink: &mut S) -> (r: Result<(), Overflow>)
    ensures
        (*final(sink)).limit() == (*old(sink)).limit(),
        ({
            let (after, all) = text::written_chars(
                (*old(sink)).limit(),
                (*old(sink)).text(),
                hiragana_text(source@),
            );
            (*final(sink)).text() == after && r is Ok == all
        }),
{
    let chars: Vec<char> = strings::chars_of(source);
    let mut mapped: Vec<char> = Vec::new();
    let mut i: usize = 0;
    while i < chars.len()
        invariant
            i <= chars@.len(),
            chars@ == source@,
            mapped@ == hiragana_text(source@).take(i as int),
        decreases chars@.len() - i,
    {
        mapped.push(hiragana_char(chars[i]));
        i = i + 1;
        assert(mapped@ =~= hiragana_text(source@).take(i as int));
    }
    assert(mapped@ =~= hiragana_text(source@));
    write_chars(sink, &mapped)
}

/// Writes a text in katakana.
pub fn write_katakana<S: TextSink>(source: &str, sink: &mut S) -> (r: Result<(), Overflow>)
    ensures
        (*final(sink)).limit() == (*old(sink)).limit(),
        ({
            let (after, all) = text::written_chars(
                (*old(sink)).limit(),
                (*old(sink)).text(),
                katakana_text(source@),
            );
            (*final(sink)).text() == after && r is Ok == all
        }),
{
    let chars: Vec<char> = strings::chars_of(source);
    let mut mapped: Vec<char> = Vec::new();
    let mut i: usize = 0;
    while i < chars.len()
        invariant
            i <= chars@.len(),
            chars@ == source@,
            mapped@ == katakana_text(source@).take(i as int),
        decreases chars@.len() - i,
    {
        mapped.push(katakana_char(chars[i]));
        i = i + 1;
        assert(mapped@ =~= katakana_text(source@).take(i as int));
    }
    assert(mapped@ =~= katakana_text(source@));
    write_chars(sink, &mapped)
}

/// Writes a text in half-width katakana.
pub fn write_half_katakana<S: TextSink>(source: &str, sink: &mut S) -> (r: Result<(), Overflow>)
    ensures
        (*final(sink)).limit() == (*old(sink)).limit(),
        ({
            let (after, all) = text::written(
                (*old(sink)).limit(),
                (*old(sink)).text(),
                half_pieces(source@),
            );
            (*final(sink)).text() == after && r is Ok == all
        }),
{
    let chars: Vec<char> = strings::chars_of(source);
    let mut pieces: Vec<String> = Vec::new();
    let mut i: usize = 0;
    assert(text::pieces_of(pieces@) =~= half_pieces(source@).take(0));
    while i < chars.len()
        invariant
            i <= chars@.len(),
            chars@ == source@,
            text::pieces_of(pieces@) == half_pieces(source@).take(i as int),
        decreases chars@.len() - i,
    {
        let c: char = katakana_char(chars[i]);
        let mut piece: String = String::new();
        match half_katakana(c) {
            Some(half) => {
                piece.append(half);
            },
            None => {
                strings::push_char(&mut piece, c);
            },
        }
        assert(piece@ =~= half_piece(source@[i as int]));
        let ghost before = text::pieces_of(pieces@);
        pieces.push(piece);
        assert(text::pieces_of(pieces@) =~= before.push(piece@));
        i = i + 1;
        assert(text::pieces_of(pieces@) =~= half_pieces(source@).take(i as int));
    }
    assert(text::pieces_of(pieces@) =~= half_pieces(source@));
    write_pieces(sink, &pieces)
}

/// Writes what was typed, in a case and a width.
fn write_alnum<S: TextSink>(source: &str, case_cycle: u8, full: bool, sink: &mut S) -> (r: Result<
    (),
    Overflow,
>)
    ensures
        (*final(sink)).limit() == (*old(sink)).limit(),
        ({
            let (after, all) = text::written_chars(
                (*old(sink)).limit(),
                (*old(sink)).text(),
                alnum_text(source@, case_cycle, full),
            );
            (*final(sink)).text() == after && r is Ok == all
        }),
{
    let chars: Vec<char> = strings::chars_of(source);
    let mut mapped: Vec<char> = Vec::new();
    let mut first: bool = true;
    let mut i: usize = 0;
    while i < chars.len()
        invariant
            i <= chars@.len(),
            chars@ == source@,
            first == no_letter_before(source@, i as int),
            mapped@ == alnum_text(source@, case_cycle, full).take(i as int),
        decreases chars@.len() - i,
    {
        let c: char = chars[i];
        let mut in_case: char = c;
        if is_ascii_letter(c) {
            let cycle: u8 = case_cycle % 3;
            in_case =
            if cycle == 0 {
                to_lower(c)
            } else if cycle == 1 || first {
                to_upper(c)
            } else {
                to_lower(c)
            };
            first = false;
            assert(kana::ascii_letter(source@[i as int]));
        }
        mapped.push(
            if full {
                to_full_width(in_case)
            } else {
                to_half_width(in_case)
            },
        );
        i = i + 1;
        assert(mapped@ =~= alnum_text(source@, case_cycle, full).take(i as int));
    }
    assert(mapped@ =~= alnum_text(source@, case_cycle, full));
    write_chars(sink, &mapped)
}

// ---------------------------------------------------------------------------
// Identifiers.

/// The most words that one identifier takes up.
pub const MAX_WORDS: usize = 32;

/// A character of a word.
pub open spec fn word_char(c: char) -> bool {
    kana::ascii_letter(c) || kana::ascii_digit(c)
}

/// Whether a new word starts at `i` with a capital letter after a small one.
pub open spec fn hump(s: Seq<char>, i: int) -> bool {
    0 < i < s.len() && 'a' <= s[i - 1] && s[i - 1] <= 'z' && 'A' <= s[i] && s[i] <= 'Z'
}

/// Where the word ends that goes on at `i`.
pub open spec fn word_end(s: Seq<char>, i: int) -> int
    decreases s.len() - i,
{
    if 0 <= i < s.len() && word_char(s[i]) && !hump(s, i) {
        word_end(s, i + 1)
    } else {
        i
    }
}

/// The words of a text from `i` on: runs of letters and digits, parted where a
/// capital letter follows a small one.
pub open spec fn words_from(s: Seq<char>, i: int) -> Seq<(int, int)>
    decreases s.len() - i,
{
    if i < 0 || i >= s.len() {
        Seq::empty()
    } else if !word_char(s[i]) {
        words_from(s, i + 1)
    } else {
        let end = word_end(s, i + 1);
        if i < end <= s.len() {
            seq![(i, end)] + words_from(s, end)
        } else {
            Seq::empty()
        }
    }
}

/// The words of a text, but no more than [`MAX_WORDS`].
pub open spec fn words(s: Seq<char>) -> Seq<(int, int)> {
    let all = words_from(s, 0);
    if all.len() <= MAX_WORDS {
        all
    } else {
        all.take(MAX_WORDS as int)
    }
}

/// What stands between two words.
pub open spec fn separator(style: IdentifierStyle) -> Seq<char> {
    match style {
        IdentifierStyle::Snake | IdentifierStyle::ScreamingSnake => seq!['_'],
        IdentifierStyle::Kebab => seq!['-'],
        IdentifierStyle::Camel => Seq::empty(),
    }
}

/// A character of a word in an identifier.
pub open spec fn identifier_char(c: char, style: IdentifierStyle, capital: bool) -> char {
    match style {
        IdentifierStyle::ScreamingSnake => upper(c),
        IdentifierStyle::Camel => if capital {
            upper(c)
        } else {
            kana::lower(c)
        },
        _ => kana::lower(c),
    }
}

/// A word in an identifier. In camel case every word but the first has a capital.
pub open spec fn identifier_word(
    s: Seq<char>,
    word: (int, int),
    style: IdentifierStyle,
    first_word: bool,
) -> Seq<char> {
    Seq::new(
        (word.1 - word.0) as nat,
        |k: int| identifier_char(s[word.0 + k], style, !first_word && k == 0),
    )
}

/// The first `n` words as an identifier.
pub open spec fn identifier_of(
    s: Seq<char>,
    all: Seq<(int, int)>,
    n: int,
    style: IdentifierStyle,
) -> Seq<char>
    decreases n,
{
    if n <= 0 {
        Seq::empty()
    } else if n == 1 {
        identifier_word(s, all[0], style, true)
    } else {
        identifier_of(s, all, n - 1, style) + separator(style) + identifier_word(
            s,
            all[n - 1],
            style,
            false,
        )
    }
}

/// Whether a text is ASCII.
pub open spec fn ascii_only(s: Seq<char>) -> bool {
    forall|i: int| 0 <= i < s.len() ==> (#[trigger] s[i] as u32) < 128
}

/// The identifier of a text, where it is ASCII and has a word.
pub open spec fn identifier(s: Seq<char>, style: IdentifierStyle) -> Option<Seq<char>> {
    if !ascii_only(s) || words(s).len() == 0 {
        None
    } else {
        Some(identifier_of(s, words(s), words(s).len() as int, style))
    }
}

/// A character of a word.
fn is_word_char(c: char) -> (r: bool)
    ensures
        r == word_char(c),
{
    is_ascii_letter(c) || is_ascii_digit(c)
}

proof fn lemma_word_end(s: Seq<char>, i: int)
    requires
        0 <= i <= s.len(),
    ensures
        i <= word_end(s, i) <= s.len(),
    decreases s.len() - i,
{
    if i < s.len() && word_char(s[i]) && !hump(s, i) {
        lemma_word_end(s, i + 1);
    }
}

/// What spans say.
pub open spec fn spans(list: Seq<(usize, usize)>) -> Seq<(int, int)> {
    Seq::new(list.len(), |i: int| (list[i].0 as int, list[i].1 as int))
}

/// The words of a text, but no more than [`MAX_WORDS`].
fn find_words(s: &[char]) -> (r: Vec<(usize, usize)>)
    ensures
        spans(r@) == words(s@),
        forall|i: int|
            0 <= i < r@.len() ==> (#[trigger] r@[i]).0 < r@[i].1 && r@[i].1 <= s@.len(),
{
    let mut found: Vec<(usize, usize)> = Vec::new();
    let mut i: usize = 0;
    assert(s.len() == s@.len());
    assert(spans(found@) + words_from(s@, 0) =~= words_from(s@, 0));
    while i < s.len() && found.len() < MAX_WORDS
        invariant
            i <= s@.len() <= usize::MAX,
            found@.len() <= MAX_WORDS,
            words_from(s@, 0) == spans(found@) + words_from(s@, i as int),
            forall|k: int|
                0 <= k < found@.len() ==> (#[trigger] found@[k]).0 < found@[k].1 && found@[k].1
                    <= s@.len(),
        decreases s@.len() - i,
    {
        if !is_word_char(s[i]) {
            i = i + 1;
        } else {
            let mut end: usize = i + 1;
            proof {
                lemma_word_end(s@, i + 1);
            }
            while end < s.len() && is_word_char(s[end]) && !('a' <= s[end - 1] && s[end - 1] <= 'z'
                && 'A' <= s[end] && s[end] <= 'Z')
                invariant
                    i < end <= s@.len(),
                    word_end(s@, i + 1) == word_end(s@, end as int),
                decreases s@.len() - end,
            {
                end = end + 1;
            }
            assert(word_end(s@, i + 1) == end);
            let ghost before = spans(found@);
            found.push((i, end));
            assert(spans(found@) =~= before.push((i as int, end as int)));
            assert(before + (seq![(i as int, end as int)] + words_from(s@, end as int)) =~= spans(
                found@,
            ) + words_from(s@, end as int));
            i = end;
        }
    }
    proof {
        let all = words_from(s@, 0);
        if i >= s@.len() {
            assert(words_from(s@, i as int) =~= Seq::<(int, int)>::empty());
            assert(all =~= spans(found@));
        } else {
            assert(all.take(MAX_WORDS as int) =~= spans(found@));
            if all.len() <= MAX_WORDS {
                assert(all.take(MAX_WORDS as int) =~= all);
            }
        }
    }
    found
}

/// Whether a text is ASCII.
fn is_ascii_only(s: &[char]) -> (r: bool)
    ensures
        r == ascii_only(s@),
{
    let mut i: usize = 0;
    while i < s.len()
        invariant
            i <= s@.len(),
            forall|k: int| 0 <= k < i ==> (#[trigger] s@[k] as u32) < 128,
        decreases s@.len() - i,
    {
        if s[i] as u32 >= 128 {
            assert((s@[i as int] as u32) >= 128);
            return false;
        }
        i = i + 1;
    }
    true
}

/// Adds the separator of a style.
fn push_separator(out: &mut Vec<char>, style: IdentifierStyle)
    ensures
        final(out)@ == old(out)@ + separator(style),
{
    match style {
        IdentifierStyle::Snake | IdentifierStyle::ScreamingSnake => {
            out.push('_');
        },
        IdentifierStyle::Kebab => {
            out.push('-');
        },
        IdentifierStyle::Camel => {},
    }
    assert(out@ =~= old(out)@ + separator(style));
}

/// Adds a word of an identifier.
fn push_word(
    out: &mut Vec<char>,
    s: &[char],
    start: usize,
    end: usize,
    style: IdentifierStyle,
    first_word: bool,
)
    requires
        start < end <= s@.len(),
    ensures
        final(out)@ == old(out)@ + identifier_word(
            s@,
            (start as int, end as int),
            style,
            first_word,
        ),
{
    let ghost word = identifier_word(s@, (start as int, end as int), style, first_word);
    let ghost before = out@;
    let mut i: usize = start;
    assert(before + word.take(0) =~= before);
    while i < end
        invariant
            start <= i <= end <= s@.len(),
            word == identifier_word(s@, (start as int, end as int), style, first_word),
            out@ == before + word.take(i - start),
        decreases end - i,
    {
        let c: char = s[i];
        let capital: bool = !first_word && i == start;
        let mapped: char = match style {
            IdentifierStyle::ScreamingSnake => to_upper(c),
            IdentifierStyle::Camel => if capital {
                to_upper(c)
            } else {
                to_lower(c)
            },
            _ => to_lower(c),
        };
        out.push(mapped);
        assert(word[i - start] == mapped);
        assert(word.take(i - start + 1) =~= word.take(i - start).push(mapped));
        i = i + 1;
        assert(out@ =~= before + word.take(i - start));
    }
    assert(word.take(end - start) =~= word);
}

/// Writes the words of an ASCII text as one identifier. `false`, and nothing
/// written, where the text is not ASCII or holds no word.
pub fn identifier_into<S: TextSink>(source: &str, style: IdentifierStyle, sink: &mut S) -> (r:
    Result<bool, Overflow>)
    ensures
        (*final(sink)).limit() == (*old(sink)).limit(),
        match identifier(source@, style) {
            None => r == Ok::<bool, Overflow>(false) && (*final(sink)).text()
                == (*old(sink)).text(),
            Some(name) => {
                let (after, all) = text::written_chars(
                    (*old(sink)).limit(),
                    (*old(sink)).text(),
                    name,
                );
                &&& (*final(sink)).text() == after
                &&& if all {
                    r == Ok::<bool, Overflow>(true)
                } else {
                    r is Err
                }
            },
        },
{
    let s: Vec<char> = strings::chars_of(source);
    if !is_ascii_only(&s) {
        return Ok(false);
    }
    let found: Vec<(usize, usize)> = find_words(&s);
    if found.len() == 0 {
        return Ok(false);
    }
    let ghost all = words(source@);
    let mut name: Vec<char> = Vec::new();
    let mut i: usize = 0;
    while i < found.len()
        invariant
            i <= found@.len(),
            s@ == source@,
            all == words(source@),
            spans(found@) == all,
            forall|k: int|
                0 <= k < found@.len() ==> (#[trigger] found@[k]).0 < found@[k].1 && found@[k].1
                    <= s@.len(),
            name@ == identifier_of(s@, all, i as int, style),
        decreases found@.len() - i,
    {
        let (start, end): (usize, usize) = found[i];
        assert(all[i as int] == (start as int, end as int));
        if i > 0 {
            push_separator(&mut name, style);
        }
        push_word(&mut name, &s, start, end, style, i == 0);
        i = i + 1;
        assert(name@ =~= identifier_of(s@, all, i as int, style));
    }
    match write_chars(sink, &name) {
        Ok(()) => Ok(true),
        Err(e) => Err(e),
    }
}

// ---------------------------------------------------------------------------
// What holds of forms as a whole.

/// Going to katakana and back gives the same hiragana, and the other way around.
pub proof fn kana_forms_undo_each_other(s: Seq<char>)
    ensures
        (forall|i: int| 0 <= i < s.len() ==> !kana::katakana(#[trigger] s[i])) ==> hiragana_text(
            katakana_text(s),
        ) == s,
        (forall|i: int| 0 <= i < s.len() ==> !kana::hiragana(#[trigger] s[i])) ==> katakana_text(
            hiragana_text(s),
        ) == s,
{
    if forall|i: int| 0 <= i < s.len() ==> !kana::katakana(#[trigger] s[i]) {
        assert(hiragana_text(katakana_text(s)) =~= s);
    }
    if forall|i: int| 0 <= i < s.len() ==> !kana::hiragana(#[trigger] s[i]) {
        assert(katakana_text(hiragana_text(s)) =~= s);
    }
}

/// A form that is applied twice is the same as applied once.
pub proof fn kana_forms_settle(s: Seq<char>)
    ensures
        hiragana_text(hiragana_text(s)) == hiragana_text(s),
        katakana_text(katakana_text(s)) == katakana_text(s),
{
    assert(hiragana_text(hiragana_text(s)) =~= hiragana_text(s));
    assert(katakana_text(katakana_text(s)) =~= katakana_text(s));
}

/// The two widths of ASCII undo each other.
pub proof fn widths_undo_each_other(c: char)
    ensures
        ' ' <= c && c <= '~' ==> half_width(full_width(c)) == c,
        (c == '\u{3000}' || ('\u{ff01}' <= c && c <= '\u{ff5e}')) ==> full_width(half_width(c)) == c,
{
}

/// The alphanumeric forms go around after three steps.
pub proof fn cases_go_around(s: Seq<char>, case_cycle: u8, full: bool)
    requires
        case_cycle <= 252,
    ensures
        alnum_text(s, (case_cycle + 3) as u8, full) == alnum_text(s, case_cycle, full),
{
    assert((case_cycle + 3) as u8 % 3 == case_cycle % 3);
    assert(alnum_text(s, (case_cycle + 3) as u8, full) =~= alnum_text(s, case_cycle, full));
}

} // verus!
