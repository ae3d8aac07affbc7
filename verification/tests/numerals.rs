//! Readings of numbers.

use sakura_core::numerals::{
    is_decorative_numeral_char, is_numeric_day_surface, parse_numeric_prefix,
    should_emit_numeric_span, NumericCounter, NumericSpan, NumericStyle,
};

fn render(span: NumericSpan, style: NumericStyle) -> String {
    let mut text = String::new();
    style.write(span, &mut text).expect("fits");
    text
}

fn span(reading: &str) -> NumericSpan {
    parse_numeric_prefix(reading).expect(reading)
}

#[test]
fn twenty_four_day_readings_become_calendar_dates() {
    for reading in ["にじゅうよんにち", "にじゅうよっか", "24にち", "２４にち"]
    {
        let parsed = span(reading);
        assert_eq!(parsed.value, 24, "{reading}");
        assert_eq!(parsed.counter, Some(NumericCounter::Day), "{reading}");
        assert_eq!(parsed.bytes, reading.len(), "{reading}");
        assert_eq!(render(parsed, NumericStyle::Arabic), "24日");
        assert_eq!(render(parsed, NumericStyle::FullWidth), "２４日");
        assert_eq!(render(parsed, NumericStyle::Kanji), "二十四日");
    }
}

#[test]
fn traditional_and_arabic_days() {
    assert_eq!(span("ついたち").value, 1);
    assert_eq!(span("ふつか").value, 2);
    assert_eq!(span("よっか").value, 4);
    assert_eq!(span("とおか").value, 10);
    assert_eq!(span("はつか").value, 20);
    assert_eq!(span("4にち").value, 4);
    assert_eq!(span("よんにち").value, 4);
    assert_eq!(span("しがつ").value, 4);
    assert_eq!(span("しがつ").counter, Some(NumericCounter::Month));
}

#[test]
fn ambiguous_shi_is_not_four_by_itself() {
    assert!(parse_numeric_prefix("し").is_none());
    assert_eq!(span("しにち").value, 4);
    assert_eq!(span("しにち").counter, Some(NumericCounter::Day));
}

#[test]
fn places_add_up() {
    for (reading, value) in [
        ("さんぜんよんひゃくごじゅうろく", 3456),
        ("せん", 1000),
        ("はっぴゃく", 800),
        ("じゅうく", 10),
        ("じゅうくにち", 19),
        ("９９９９", 9999),
        ("007", 0),
        ("ぜろ", 0),
    ] {
        match parse_numeric_prefix(reading) {
            Some(span) => assert_eq!(span.value, value, "{reading}"),
            None => assert_eq!(reading, "007"),
        }
    }
    assert!(parse_numeric_prefix("いちまん").is_none());
    assert!(parse_numeric_prefix("１００００").is_none());
    assert!(parse_numeric_prefix("").is_none());
    assert!(parse_numeric_prefix("さくら").is_none());
}

#[test]
fn a_number_ends_where_its_reading_ends() {
    let long = span("12345");
    assert_eq!((long.value, long.bytes), (1234, 4));
    let day = span("24にちめ");
    assert_eq!((day.value, day.bytes), (24, 8));
    let year = span("せんきゅうひゃくねん");
    assert_eq!((year.value, year.counter), (1900, Some(NumericCounter::Year)));
}

#[test]
fn numbers_read_back() {
    for value in [0, 1, 9, 10, 99, 100, 1234, 9999] {
        let written = NumericSpan {
            value,
            counter: None,
            bytes: 0,
        };
        for style in [NumericStyle::Arabic, NumericStyle::FullWidth] {
            assert_eq!(span(&render(written, style)).value, value);
        }
    }
}

#[test]
fn kanji_leave_out_the_one_of_a_place() {
    for (value, expected) in [
        (0, "零"),
        (10, "十"),
        (111, "百十一"),
        (2005, "二千五"),
        (9999, "九千九百九十九"),
    ] {
        let written = NumericSpan {
            value,
            counter: None,
            bytes: 0,
        };
        assert_eq!(render(written, NumericStyle::Kanji), expected);
    }
}

#[test]
fn only_some_numbers_are_worth_offering() {
    assert!(!should_emit_numeric_span(span("よん")));
    assert!(should_emit_numeric_span(span("じゅう")));
    assert!(should_emit_numeric_span(span("よんにち")));
}

#[test]
fn digits_for_decoration_are_known() {
    for c in ['²', '①', '⑳', '㉑', '㊿', '⁹'] {
        assert!(is_decorative_numeral_char(c), "{c}");
    }
    for c in ['1', '１', '一', '㉠', '\u{2072}'] {
        assert!(!is_decorative_numeral_char(c), "{c}");
    }
}

#[test]
fn days_are_known_however_they_are_written() {
    for text in ["1日", "１０日", "千日", "二十四日"] {
        assert!(is_numeric_day_surface(text), "{text}");
    }
    for text in ["日", "先日", "1日目", "1月", ""] {
        assert!(!is_numeric_day_surface(text), "{text}");
    }
}

#[test]
fn the_longest_way_to_read_a_number_is_taken() {
    for (reading, value, counter, bytes) in [
        ("じゅうにち", 10, Some(NumericCounter::Day), 15),
        ("にじゅうにち", 20, Some(NumericCounter::Day), 18),
        ("ひゃくにち", 100, Some(NumericCounter::Day), 15),
        ("せんにち", 1000, Some(NumericCounter::Day), 12),
        ("せんにじゅうにちめ", 1020, Some(NumericCounter::Day), 24),
        ("じゅうににち", 12, Some(NumericCounter::Day), 18),
        ("じゅうにがつ", 12, Some(NumericCounter::Month), 18),
        ("じゅうに", 12, None, 12),
        ("じゅうにん", 12, None, 12),
        ("せんじつ", 1000, Some(NumericCounter::Day), 12),
        ("にち", 2, None, 3),
        ("ににち", 2, Some(NumericCounter::Day), 9),
        ("ぜろまんご", 5, None, 15),
    ] {
        assert_eq!(
            parse_numeric_prefix(reading),
            Some(NumericSpan { value, counter, bytes }),
            "{reading}"
        );
    }
}
