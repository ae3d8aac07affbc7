//! Bounded repair of typed readings.
//!
//! What was typed stays on screen. Repair only gives other readings to look up,
//! each of which stands for the typed bytes. All of it is finite: one edit of one
//! character, and a fixed number of variants.

pub mod english;
pub mod kana;
pub mod laws;
pub mod rule_laws;
pub mod spelling_laws;
pub mod variants;

pub use english::english_spelling_katakana_reading;
pub use variants::{collect_repair_variants, push_advanced_variants, RepairKind, RepairVariant, RepairVariantList};

use crate::dictionary::EntryFlags;
use crate::preferences::InputSupport;
use kana::{is_ascii_digit, is_ascii_letter, to_half_ascii};
use vstd::prelude::*;

verus! {

/// The cost of a reading that a rule repaired.
pub const REPAIR_PENALTY: i64 = 1200;

/// The higher cost of a reading out of the broad pass over short readings.
pub const ADVANCED_REPAIR_PENALTY: i64 = 2400;

/// The cost of an English spelling read as katakana.
pub const ENGLISH_KATAKANA_PENALTY: i64 = 1800;

/// The cost of a repair that was committed before. It is lower than that of a rule,
/// so that what was accepted once goes first.
pub const COMMIT_HISTORY_PENALTY: i64 = 600;

/// The most variants of one reading.
pub const MAX_REPAIR_VARIANTS: usize = 24;

/// The most variants of one reading for prediction, which has less time.
pub const MAX_PREDICTION_REPAIR_VARIANTS: usize = 8;

/// The longest reading that the broad pass looks at.
pub const ADVANCED_MAX_CHARS: usize = 6;

/// Whether a dictionary entry may be used. A correction of a misspelling may only
/// be used where repair is on and not skipped.
pub fn allows_system_entry(support: InputSupport, skip_input_repair: bool, flags: EntryFlags) -> (r:
    bool)
    ensures
        r == (!flags.has(EntryFlags(4)) || support.corrects_spelling(
            skip_input_repair,
        )),
{
    !flags.contains(EntryFlags::spelling_correction()) || support.allows_spelling_correction(
        skip_input_repair,
    )
}

/// An ASCII punctuation mark.
pub open spec fn ascii_mark(c: char) -> bool {
    ('!' <= c && c <= '/') || (':' <= c && c <= '@') || ('[' <= c && c <= '`') || ('{' <= c && c
        <= '~')
}

/// What a mark becomes after `previous`: after a digit a full stop is a decimal
/// point, a comma separates thousands and a middle dot is a slash; after a letter,
/// a digit or a mark the long vowel mark is a minus sign.
pub open spec fn mark_after(previous: Option<char>, typed: char, support: InputSupport) -> Option<
    char,
> {
    match previous {
        Some(p) => {
            let half = kana::half_ascii(p);
            let digit = kana::ascii_digit(half);
            if !support.enabled {
                None
            } else if support.period_after_digit && (typed == '。' || typed == '．') && digit {
                Some('．')
            } else if support.comma_after_digit && (typed == '、' || typed == '，') && digit {
                Some('，')
            } else if support.middle_dot_after_digit && (typed == '・' || typed == '／') && digit {
                Some('／')
            } else if support.long_vowel_after_alnum && (typed == 'ー' || typed == '－' || typed
                == '-') && (digit || kana::ascii_letter(half) || ascii_mark(half)) {
                Some('－')
            } else {
                None
            }
        },
        None => None,
    }
}

/// The mark to use for `typed` after `previous`, where it is not the ordinary one.
pub fn contextual_punctuation_swap(previous: Option<char>, typed: char, support: InputSupport) -> (r:
    Option<char>)
    ensures
        r == mark_after(previous, typed, support),
{
    if !support.is_active() {
        return None;
    }
    let Some(p) = previous else {
        return None;
    };
    let half: char = to_half_ascii(p);
    let digit: bool = is_ascii_digit(half);
    if support.period_after_digit && (typed == '。' || typed == '．') && digit {
        return Some('．');
    }
    if support.comma_after_digit && (typed == '、' || typed == '，') && digit {
        return Some('，');
    }
    if support.middle_dot_after_digit && (typed == '・' || typed == '／') && digit {
        return Some('／');
    }
    let mark: bool = ('!' <= half && half <= '/') || (':' <= half && half <= '@') || ('[' <= half
        && half <= '`') || ('{' <= half && half <= '~');
    if support.long_vowel_after_alnum && (typed == 'ー' || typed == '－' || typed == '-') && (digit
        || is_ascii_letter(half) || mark) {
        return Some('－');
    }
    None
}

} // verus!
