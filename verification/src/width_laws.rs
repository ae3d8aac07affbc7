//! What holds of how characters look.

use crate::editing;
use crate::settings::Mode;
use crate::simd;
use crate::width::{CommaMark, Normalizer, PeriodMark, Width};
use vstd::prelude::*;

verus! {

/// Whether a width is wide in a mode: always, never, or in every mode but that of half-width
/// letters and that of no input method.
pub open spec fn is_wide(width: Width, mode: Mode) -> bool {
    match width {
        Width::Half => false,
        Width::Full => true,
        Width::FollowMode => mode != Mode::HalfAlnum && mode != Mode::Direct,
    }
}

/// The width that is set for a character of ASCII: one for letters, one for digits, and one
/// for everything else.
pub open spec fn width_set(style: Normalizer, c: char) -> Width {
    if ('a' <= c && c <= 'z') || ('A' <= c && c <= 'Z') {
        style.width.alnum
    } else if '0' <= c && c <= '9' {
        style.width.number
    } else {
        style.width.symbol
    }
}

/// What is printed of ASCII comes out in the width that is set for it: in half width as it
/// is, and in full width 0xfee0 code points further on, but for the space.
pub proof fn ascii_takes_the_width_that_is_set(style: Normalizer, c: char, mode: Mode)
    requires
        ' ' <= c,
        c <= '~',
    ensures
        !is_wide(width_set(style, c), mode) ==> style.normalized(c, mode) == c,
        is_wide(width_set(style, c), mode) && c == ' ' ==> style.normalized(c, mode) == '\u{3000}',
        is_wide(width_set(style, c), mode) && c != ' ' ==> style.normalized(c, mode) as int
            == c as int + 0xfee0,
{
}

/// A Japanese full stop or comma of either form comes out as the mark that is set for it.
pub proof fn marks_take_the_style_that_is_set(style: Normalizer, mode: Mode)
    ensures
        style.normalized('。', mode) == style.normalized('．', mode),
        style.normalized('、', mode) == style.normalized('，', mode),
        style.punctuation.period == PeriodMark::Kuten ==> style.normalized('。', mode) == '。',
        style.punctuation.period == PeriodMark::FullWidth ==> style.normalized('。', mode) == '．',
        style.punctuation.period == PeriodMark::HalfWidth ==> style.normalized('。', mode) == '.',
        style.punctuation.comma == CommaMark::Touten ==> style.normalized('、', mode) == '、',
        style.punctuation.comma == CommaMark::FullWidth ==> style.normalized('、', mode) == '，',
        style.punctuation.comma == CommaMark::HalfWidth ==> style.normalized('、', mode) == ',',
{
}

/// Everything else stays as it is.
pub proof fn other_characters_stay(style: Normalizer, c: char, mode: Mode)
    requires
        c < ' ' || c > '~',
        c != '。' && c != '．' && c != '、' && c != '，',
    ensures
        style.normalized(c, mode) == c,
{
}

/// A byte passes through a text unchanged where the character that it is looks as it is.
pub proof fn bytes_pass_where_characters_stay(style: Normalizer, b: u8, mode: Mode)
    requires
        b < 0x80,
    ensures
        simd::passes(
            b,
            is_wide(style.width.alnum, mode),
            is_wide(style.width.number, mode),
            is_wide(style.width.symbol, mode),
        ) == (style.normalized(b as char, mode) == b as char),
{
    let c = b as char;
    assert(c as u32 == b as u32);
    if ' ' <= c && c <= '~' {
        ascii_takes_the_width_that_is_set(style, c, mode);
    } else {
        other_characters_stay(style, c, mode);
    }
}

/// The characters of ASCII and those in full width are two by two: one is 0xfee0 code
/// points behind the other, and a space has a wide one of its own.
pub proof fn widths_are_two_by_two(c: char)
    ensures
        '!' <= c && c <= '~' ==> editing::full_width(c) as int == c as int + 0xfee0,
        '！' <= c && c <= '～' ==> editing::half_width(c) as int == c as int - 0xfee0,
        editing::full_width(' ') == '\u{3000}',
        editing::half_width('\u{3000}') == ' ',
        !(' ' <= c && c <= '~') ==> editing::full_width(c) == c,
        !('！' <= c && c <= '～') && c != '\u{3000}' ==> editing::half_width(c) == c,
{
}

} // verus!
