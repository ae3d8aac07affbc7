//! Slips and their repairs.

use sakura_core::dictionary::EntryFlags;
use sakura_core::input_repair::english::english_spelling_katakana_reading;
use sakura_core::input_repair::variants::{
    collect_repair_variants, push_advanced_variants, RepairVariantList,
};
use sakura_core::input_repair::{
    allows_system_entry, contextual_punctuation_swap, MAX_REPAIR_VARIANTS,
};
use sakura_core::preferences::InputSupport;
use sakura_core::settings::Mode;
use sakura_core::width::{BracketStyle, Normalizer, PunctuationStyle, WidthPolicy};

#[test]
fn duplicated_n_and_missing_n_are_repaired() {
    let support = InputSupport::default();
    let variants = collect_repair_variants("こんんにちは", support, MAX_REPAIR_VARIANTS);
    assert!(variants
        .iter()
        .any(|variant| variant.repaired.as_str() == "こんにちは"));
    let variants = collect_repair_variants("こにちは", support, MAX_REPAIR_VARIANTS);
    assert!(variants
        .iter()
        .any(|variant| variant.repaired.as_str() == "こんにちは"));
}

#[test]
fn extra_sokuon_and_wa_wo_are_repaired() {
    let support = InputSupport::default();
    let variants = collect_repair_variants("がっっこう", support, MAX_REPAIR_VARIANTS);
    assert!(variants
        .iter()
        .any(|variant| variant.repaired.as_str() == "がっこう"));
    let variants = collect_repair_variants("をかし", support, MAX_REPAIR_VARIANTS);
    assert!(
        variants
            .iter()
            .any(|variant| variant.repaired.as_str() == "をかし")
            || variants
                .iter()
                .any(|variant| variant.repaired.as_str().contains('を'))
    );
    let variants = collect_repair_variants("わたし", support, MAX_REPAIR_VARIANTS);
    assert!(variants
        .iter()
        .any(|variant| variant.repaired.as_str() == "をたし"));
}

#[test]
fn master_off_emits_no_variants() {
    let support = InputSupport {
        enabled: false,
        ..InputSupport::default()
    };
    let variants = collect_repair_variants("こんんにちは", support, MAX_REPAIR_VARIANTS);
    assert!(variants.is_empty());
}

#[test]
fn english_spelling_reconstructs_apple_and_internet() {
    let apple = english_spelling_katakana_reading("あｐｐｌｅ").expect("apple");
    assert_eq!(apple.as_str(), "アップル");
    let apple_sokuon = english_spelling_katakana_reading("あっｐｌｅ").expect("apple sokuon");
    assert_eq!(apple_sokuon.as_str(), "アップル");
    let internet = english_spelling_katakana_reading("いんてｒねｔ").expect("internet");
    assert_eq!(internet.as_str(), "インターネット");
}

#[test]
fn contextual_punctuation_swaps_after_digits_and_alnum() {
    let support = InputSupport::default();
    assert_eq!(
        contextual_punctuation_swap(Some('1'), '。', support),
        Some('．')
    );
    assert_eq!(
        contextual_punctuation_swap(Some('a'), 'ー', support),
        Some('－')
    );
    assert_eq!(contextual_punctuation_swap(Some('あ'), '。', support), None);
}

#[test]
fn contextual_punctuation_swap_defers_the_final_glyph_to_the_punctuation_style() {
    let support = InputSupport::default();
    let ascii = Normalizer {
        width: WidthPolicy::default(),
        punctuation: PunctuationStyle::ascii(),
        brackets: BracketStyle::default(),
    };
    let period = contextual_punctuation_swap(Some('1'), '。', support).expect("digit period");
    assert_eq!(ascii.normalize_char(period, Mode::Hiragana), '.');
    let comma = contextual_punctuation_swap(Some('1'), '、', support).expect("digit comma");
    assert_eq!(ascii.normalize_char(comma, Mode::Hiragana), ',');

    let full = Normalizer {
        width: WidthPolicy::default(),
        punctuation: PunctuationStyle::comma_period(),
        brackets: BracketStyle::default(),
    };
    assert_eq!(full.normalize_char(period, Mode::Hiragana), '\u{FF0E}');
    assert_eq!(full.normalize_char(comma, Mode::Hiragana), '\u{FF0C}');
}

#[test]
fn original_reading_is_never_emitted_as_a_variant() {
    let support = InputSupport::default();
    let variants = collect_repair_variants("こんにちは", support, MAX_REPAIR_VARIANTS);
    assert!(variants
        .iter()
        .all(|variant| variant.repaired.as_str() != "こんにちは"));
}

#[test]
fn allows_system_entry_rejects_spelling_correction_when_gated() {
    let support = InputSupport::default();
    assert!(allows_system_entry(
        support,
        false,
        EntryFlags::spelling_correction()
    ));
    assert!(!allows_system_entry(
        support,
        true,
        EntryFlags::spelling_correction()
    ));
    assert!(allows_system_entry(support, true, EntryFlags::it()));
    assert!(allows_system_entry(
        support,
        false,
        EntryFlags::it() | EntryFlags::spelling_correction()
    ));
    let off = InputSupport {
        enabled: false,
        ..InputSupport::default()
    };
    assert!(!allows_system_entry(
        off,
        false,
        EntryFlags::it() | EntryFlags::spelling_correction()
    ));
}

#[test]
fn vowel_and_kana_rules_emit_bounded_repairs() {
    let support = InputSupport::default();
    let variants = collect_repair_variants("おはよ", support, MAX_REPAIR_VARIANTS);
    assert!(variants
        .iter()
        .any(|variant| variant.repaired.as_str() == "おはよう"));
    let variants = collect_repair_variants("つづく", support, MAX_REPAIR_VARIANTS);
    assert!(variants
        .iter()
        .any(|variant| variant.repaired.as_str() == "っづく"
            || variant.repaired.as_str() == "つずく"));
}

#[test]
fn decimal_counter_inputs_never_emit_kana_repairs() {
    const SUFFIXES: [&str; 24] = [
        "えん",
        "かい",
        "がつ",
        "けん",
        "こ",
        "さい",
        "じ",
        "せき",
        "そく",
        "だい",
        "つ",
        "にち",
        "にん",
        "ねん",
        "はい",
        "ばん",
        "ふん",
        "ぷん",
        "ほん",
        "まい",
        "わり",
        "ちゃく",
        "ひき",
        "かしょ",
    ];
    let support = InputSupport::default();
    for digit in ['0', '1', '2', '3', '4', '5', '6', '7', '8', '9'] {
        for suffix in SUFFIXES {
            let typed = format!("{digit}{suffix}");
            assert!(
                collect_repair_variants(&typed, support, MAX_REPAIR_VARIANTS).is_empty(),
                "ASCII digit/counter input emitted a repair: {typed}"
            );
            let fullwidth = char::from_u32(digit as u32 + 0xFEE0).expect("full-width digit");
            let typed = format!("{fullwidth}{suffix}");
            assert!(
                collect_repair_variants(&typed, support, MAX_REPAIR_VARIANTS).is_empty(),
                "full-width digit/counter input emitted a repair: {typed}"
            );
        }
    }
}

#[test]
fn advanced_substitution_preserves_non_kana_literals() {
    let mut variants = RepairVariantList::new();
    push_advanced_variants("Aかい", &mut variants, MAX_REPAIR_VARIANTS);
    assert!(
        !variants.is_empty(),
        "kana positions should remain repairable"
    );
    assert!(
        variants
            .iter()
            .all(|variant| variant.repaired.as_str().starts_with('A')),
        "Advanced substitution replaced a non-kana literal: {variants:?}"
    );
}

#[test]
fn individual_flags_can_disable_specific_rules() {
    let support = InputSupport {
        n_count: false,
        ..InputSupport::default()
    };
    let variants = collect_repair_variants("こにちは", support, MAX_REPAIR_VARIANTS);
    assert!(variants
        .iter()
        .all(|variant| variant.repaired.as_str() != "こんにちは"));
}

/// The readings that a rule repairs to, with nothing else switched on.
fn repaired(typed: &str, support: InputSupport) -> Vec<String> {
    collect_repair_variants(typed, support, MAX_REPAIR_VARIANTS)
        .iter()
        .map(|variant| variant.repaired.as_str().to_string())
        .collect()
}

/// Repair with every rule switched off.
fn bare() -> InputSupport {
    InputSupport {
        enabled: true,
        commit_based: false,
        advanced: false,
        vowel_count: false,
        consonant_extra: false,
        n_count: false,
        dakuten_swap: false,
        tsu_sokuon: false,
        wa_wo: false,
        small_u: false,
        fuzzy_proper_nouns: false,
        english_to_katakana: false,
        period_after_digit: false,
        comma_after_digit: false,
        middle_dot_after_digit: false,
        long_vowel_after_alnum: false,
    }
}

#[test]
fn without_rules_nothing_is_repaired() {
    for typed in ["こんんにちは", "がっっこう", "おはよ", "つづく", "わたし"] {
        assert!(repaired(typed, bare()).is_empty(), "{typed}");
    }
}

#[test]
fn every_rule_repairs_its_own_slip() {
    let n = InputSupport { n_count: true, ..bare() };
    assert!(repaired("こんんにちは", n).contains(&"こんにちは".to_string()));
    let dakuten = InputSupport { dakuten_swap: true, ..bare() };
    assert!(repaired("かっこう", dakuten).contains(&"がっこう".to_string()));
    let tsu = InputSupport { tsu_sokuon: true, ..bare() };
    assert!(repaired("がつこう", tsu).contains(&"がっこう".to_string()));
    let wa = InputSupport { wa_wo: true, ..bare() };
    assert!(repaired("わたし", wa).contains(&"をたし".to_string()));
}

#[test]
fn variants_are_few_distinct_and_cover_what_was_typed() {
    for typed in ["こんんにちは", "おはよ", "つづく", "がっっこう"] {
        for most in 0..=MAX_REPAIR_VARIANTS {
            let variants = collect_repair_variants(typed, InputSupport::default(), most);
            assert!(variants.len() <= most);
            let list = variants.as_slice();
            for (index, variant) in list.iter().enumerate() {
                assert_eq!(usize::from(variant.typed_end), typed.len());
                assert_ne!(variant.repaired.as_str(), typed);
                for other in &list[index + 1..] {
                    assert_ne!(variant.repaired.as_str(), other.repaired.as_str());
                }
            }
        }
    }
}

#[test]
fn marks_change_only_behind_what_they_depend_on() {
    let support = InputSupport::default();
    assert_eq!(contextual_punctuation_swap(None, '。', support), None);
    assert_eq!(contextual_punctuation_swap(Some('１'), '、', support), Some('，'));
    assert_eq!(contextual_punctuation_swap(Some('1'), 'あ', support), None);
    let off = InputSupport { enabled: false, ..support };
    assert_eq!(contextual_punctuation_swap(Some('1'), '。', off), None);
    let no_period = InputSupport { period_after_digit: false, ..support };
    assert_eq!(contextual_punctuation_swap(Some('1'), '。', no_period), None);
}

#[test]
fn readings_without_latin_letters_are_no_english() {
    assert!(english_spelling_katakana_reading("さくら").is_none());
    assert!(english_spelling_katakana_reading("").is_none());
    assert!(english_spelling_katakana_reading("123").is_none());
}

#[test]
fn flags_are_set_by_their_names() {
    let mut support = InputSupport::default();
    assert!(support.set_flag("n-count", false));
    assert!(!support.n_count);
    assert_eq!(support.flag("n-count"), Some(false));
    assert_eq!(support.flag("wa-wo"), Some(support.wa_wo));
    let before = support;
    assert!(!support.set_flag("no-such-rule", false));
    assert_eq!(support, before);
    assert_eq!(support.flag("no-such-rule"), None);
}
