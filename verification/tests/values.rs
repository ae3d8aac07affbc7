//! Bounded texts, keys and named settings.

use sakura_core::keys::{KeyCode, Modifiers};
use sakura_core::settings::{AppearanceTheme, Mode, PadShortcut};
use sakura_core::strings::chars_of;
use sakura_core::text::{write_chars, write_pieces};
use sakura_core::values::{FixedStr, Overflow};
use sakura_core::width::{
    BracketStyle, CommaMark, Normalizer, PeriodMark, PunctuationStyle, Width, WidthPolicy,
};

#[test]
fn a_bounded_text_gives_back_its_last_character() {
    let mut text = FixedStr::<8>::new();
    assert_eq!(text.pop_char(), None);
    text.push_str("aあ").expect("fits");
    assert_eq!(text.len(), 4);
    assert_eq!(text.capacity(), 8);
    assert_eq!(text.pop_char(), Some('あ'));
    assert_eq!(text.as_str(), "a");
    text.clear();
    assert!(text.is_empty());
}

#[test]
fn a_text_is_its_characters() {
    assert_eq!(chars_of("aあ🍣"), vec!['a', 'あ', '🍣']);
    assert!(chars_of("").is_empty());
}

#[test]
fn pieces_are_written_while_they_fit() {
    let mut text = FixedStr::<4>::new();
    let pieces = vec!["a".to_string(), "あ".to_string(), "b".to_string()];
    assert_eq!(write_pieces(&mut text, &pieces), Err(Overflow));
    assert_eq!(text.as_str(), "aあ");
    let mut all = String::new();
    assert_eq!(write_chars(&mut all, &['x', 'い']), Ok(()));
    assert_eq!(all, "xい");
}

#[test]
fn keys_are_found_by_number_and_by_name() {
    for (index, code) in KeyCode::ALL.into_iter().enumerate() {
        assert_eq!(usize::from(code.number()), index);
        assert_eq!(KeyCode::from_number(code.number()), Some(code));
        if let Some(name) = code.name() {
            assert_eq!(KeyCode::from_name(name), Some(code));
        }
    }
    assert_eq!(KeyCode::from_number(KeyCode::ALL.len() as u16), None);
    assert_eq!(KeyCode::Char.name(), None);
    assert_eq!(KeyCode::from_name("no such key"), None);
}

#[test]
fn locks_are_no_modifiers() {
    let all = Modifiers(0x1f);
    assert_eq!(all.without_locks(), Modifiers(7));
    assert!(all.shift() && all.ctrl() && all.alt());
    assert!(!Modifiers(Modifiers::CAPS_LOCK).shift());
}

#[test]
fn named_settings_round_trip() {
    for value in Mode::ALL {
        assert_eq!(Mode::from_name(value.name()), Some(value));
    }
    for value in AppearanceTheme::ALL {
        assert_eq!(AppearanceTheme::from_name(value.name()), Some(value));
    }
    for value in PadShortcut::ALL {
        assert_eq!(PadShortcut::from_name(value.name()), Some(value));
    }
    for value in Width::ALL {
        assert_eq!(Width::from_name(value.name()), Some(value));
    }
    for value in BracketStyle::ALL {
        assert_eq!(BracketStyle::from_name(value.name()), Some(value));
    }
    assert_eq!(Width::from_name("wide"), None);
}

#[test]
fn there_are_nine_styles_of_punctuation() {
    let all = PunctuationStyle::all();
    assert_eq!(all.len(), 9);
    for (index, style) in all.iter().enumerate() {
        for other in all.iter().skip(index + 1) {
            assert_ne!(style, other);
            assert_ne!(style.name(), other.name());
        }
    }
}

#[test]
fn marks_look_as_the_style_has_them() {
    let normalizer = Normalizer {
        width: WidthPolicy::default(),
        punctuation: PunctuationStyle::new(CommaMark::Touten, PeriodMark::HalfWidth),
        brackets: BracketStyle::default(),
    };
    for comma in ['、', '，'] {
        assert_eq!(normalizer.normalize_char(comma, Mode::Hiragana), '、');
    }
    for period in ['。', '．'] {
        assert_eq!(normalizer.normalize_char(period, Mode::Hiragana), '.');
    }
    assert_eq!(normalizer.normalize_char('あ', Mode::Hiragana), 'あ');
}

#[test]
fn ascii_takes_its_width() {
    let normalizer = Normalizer {
        width: WidthPolicy {
            alnum: Width::Full,
            number: Width::FollowMode,
            symbol: Width::Half,
        },
        punctuation: PunctuationStyle::default(),
        brackets: BracketStyle::default(),
    };
    assert_eq!(normalizer.normalize_char('a', Mode::HalfAlnum), 'ａ');
    assert_eq!(normalizer.normalize_char('7', Mode::Hiragana), '７');
    assert_eq!(normalizer.normalize_char('7', Mode::HalfAlnum), '7');
    assert_eq!(normalizer.normalize_char('@', Mode::Hiragana), '@');
    assert_eq!(normalizer.normalize_char('\n', Mode::Hiragana), '\n');
    let wide = Normalizer {
        width: WidthPolicy {
            symbol: Width::Full,
            ..normalizer.width
        },
        ..normalizer
    };
    assert_eq!(wide.normalize_char(' ', Mode::Hiragana), '\u{3000}');
    assert_eq!(wide.normalize_char('~', Mode::Hiragana), '～');
}
