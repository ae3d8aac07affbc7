//! Candidates that no dictionary entry gives.

use sakura_core::conversion::characters::insert_character;
use sakura_core::conversion::dates::DateSurface;
use sakura_core::conversion::punctuation::PunctuationVariant;
use sakura_core::conversion::{
    add_cost, ConversionCandidate, ConversionError, ConversionSegment, Converter, PathEvidence,
};
use sakura_core::dictionary::image_format;
use sakura_core::dictionary::{Dictionary, EntryFlags};
use sakura_core::values::{FixedStr, MAX_PREEDIT_BYTES};

#[test]
fn collision_duplicates_wraparound_and_full_table_remain_bounded() {
    let mut seen = [0; 4];
    for character in ['一', '丄', '丈', '丌'] {
        assert!(insert_character(&mut seen, character));
    }
    let before = seen;
    assert!(!insert_character(&mut seen, '丄'));
    assert!(!insert_character(&mut seen, '丐'));
    assert_eq!(seen, before);
}

fn fixed(text: &str) -> FixedStr<MAX_PREEDIT_BYTES> {
    let mut fixed = FixedStr::new();
    fixed.push_str(text).expect("fits");
    fixed
}

/// A candidate that the search found, with a dictionary entry or without.
fn found(text: &str, cost: i64, entry: Option<u32>) -> ConversionCandidate {
    ConversionCandidate {
        text: fixed(text),
        annotation: fixed(""),
        segments: vec![ConversionSegment {
            reading_start: 0,
            reading_end: 3,
            text_start: 0,
            text_end: text.len() as u16,
            left_id: 7,
            right_id: 9,
            flags: EntryFlags::none(),
            word_count: 1,
            it_word_count: 0,
        }],
        system_entry_index: entry,
        synthetic_exact: false,
        path_evidence: PathEvidence {
            generated_edges: if entry.is_some() { 0 } else { 1 },
            system_bytes: if entry.is_some() { 3 } else { 0 },
        },
        generated_day_suffix: false,
        cost,
    }
}

fn listed(converter: &Converter) -> Vec<(&str, i64)> {
    converter
        .candidates()
        .iter()
        .map(|candidate| (candidate.text.as_str(), candidate.cost))
        .collect()
}

#[test]
fn costs_stop_at_their_bounds() {
    assert_eq!(add_cost(1, 2), 3);
    assert_eq!(add_cost(i64::MAX, 1), i64::MAX);
    assert_eq!(add_cost(i64::MIN, -1), i64::MIN);
}

#[test]
fn sorting_keeps_the_order_of_equal_costs() {
    let mut converter = Converter::new(vec![
        found("c", 3, None),
        found("a", 1, None),
        found("b", 3, None),
        found("d", 2, None),
    ]);
    converter.sort_by_cost();
    assert_eq!(listed(&converter), vec![("a", 1), ("d", 2), ("c", 3), ("b", 3)]);
}

#[test]
fn jitsu_is_no_count_of_days() {
    let mut converter = Converter::new(vec![
        found("先日", 1, Some(0)),
        found("1000日", 2, None),
        found("千日", 3, None),
        found("日", 4, Some(1)),
    ]);
    converter.drop_jitsu_day_counts("せんにち");
    assert_eq!(converter.candidates().len(), 4);
    converter.drop_jitsu_day_counts("せんじつ");
    assert_eq!(listed(&converter), vec![("先日", 1), ("日", 4)]);
}

#[test]
fn made_up_days_go_behind_what_the_dictionary_covers() {
    let mut made_up = found("二日", 1, None);
    made_up.generated_day_suffix = true;
    let mut dear = found("三日", 90, None);
    dear.generated_day_suffix = true;
    let mut converter = Converter::new(vec![made_up, found("仏か", 20, Some(3)), dear]);
    converter.demote_generated_day_suffixes(9);
    assert_eq!(listed(&converter), vec![("二日", 1), ("仏か", 20), ("三日", 90)]);
    converter.demote_generated_day_suffixes(3);
    assert_eq!(listed(&converter), vec![("二日", 21), ("仏か", 20), ("三日", 90)]);
}

#[test]
fn dates_come_behind_the_first_candidate() {
    let ways = vec![
        DateSurface {
            text: "2024/01/02".to_string(),
            annotation: "日付".to_string(),
        },
        DateSurface {
            text: "今日".to_string(),
            annotation: "日付".to_string(),
        },
        DateSurface {
            text: "1月2日".to_string(),
            annotation: "和暦".to_string(),
        },
    ];
    let mut converter = Converter::new(vec![found("今日", 5, Some(0))]);
    assert_eq!(converter.add_date_candidates("きょう", None, 9), Ok(()));
    assert_eq!(converter.candidates().len(), 1);
    assert_eq!(converter.add_date_candidates("きょう", Some(&ways), 9), Ok(()));
    assert_eq!(
        listed(&converter),
        vec![("今日", 5), ("2024/01/02", 15), ("1月2日", 17)]
    );
    let added = &converter.candidates()[1];
    assert_eq!(added.annotation.as_str(), "日付");
    assert_eq!(added.segments.len(), 1);
    assert_eq!((added.segments[0].left_id, added.segments[0].right_id), (7, 9));
    assert_eq!((added.segments[0].reading_end, added.segments[0].text_end), (9, 10));
    assert_eq!(added.path_evidence.generated_edges, 1);

    let mut full = Converter::new(vec![found("今日", 5, Some(0))]);
    assert_eq!(full.add_date_candidates("きょう", Some(&ways), 2), Ok(()));
    assert_eq!(full.candidates().len(), 2);

    let mut empty = Converter::new(Vec::new());
    assert_eq!(empty.add_date_candidates("きょう", Some(&ways), 9), Ok(()));
    assert!(empty.candidates().is_empty());

    let long = "あ".repeat(30_000);
    let mut converter = Converter::new(vec![found("今日", 5, Some(0))]);
    assert_eq!(
        converter.add_date_candidates(&long, Some(&ways), 9),
        Err(ConversionError::ReadingTooLong)
    );
}

fn family() -> Vec<PunctuationVariant> {
    vec![
        PunctuationVariant {
            glyph: '，',
            annotation: "全角コンマ".to_string(),
        },
        PunctuationVariant {
            glyph: '、',
            annotation: "読点".to_string(),
        },
    ]
}

#[test]
fn a_family_of_marks_goes_first() {
    let mut converter = Converter::new(vec![
        found("、", 10, Some(0)),
        found("、、", 4, None),
        found("点", 6, Some(1)),
    ]);
    assert_eq!(converter.append_punctuation_family("、", None, 9), Ok(()));
    assert_eq!(converter.candidates().len(), 3);
    assert_eq!(
        converter.append_punctuation_family("、", Some(&family()), 9),
        Ok(())
    );
    assert_eq!(
        listed(&converter),
        vec![("，", 2), ("、", 3), ("、、", 4), ("点", 6)]
    );
    assert!(converter.candidates()[0].synthetic_exact);
    assert!(!converter.candidates()[2].synthetic_exact);
    assert_eq!(converter.candidates()[0].segments[0].right_id, 0);

    let mut short = Converter::new(vec![found("点", 6, Some(1))]);
    assert_eq!(
        short.append_punctuation_family("、", Some(&family()), 1),
        Ok(())
    );
    assert_eq!(listed(&short), vec![("，", 4), ("、", 5)]);
}

#[test]
fn marks_that_cannot_be_made_are_refused() {
    let long = "あ".repeat(30_000);
    let mut converter = Converter::new(vec![found("、", 10, Some(0))]);
    assert_eq!(
        converter.append_punctuation_family(&long, Some(&family()), 9),
        Err(ConversionError::ReadingTooLong)
    );
    assert_eq!(listed(&converter), vec![("、", 10)]);
    let mut marks = family();
    marks[1].annotation = "長".repeat(200);
    assert_eq!(
        converter.append_punctuation_family("、", Some(&marks), 9),
        Err(ConversionError::OutputTooLong)
    );
    assert_eq!(listed(&converter), vec![("，", -2)]);
}

#[test]
fn numbers_are_offered_in_every_style() {
    let mut converter = Converter::new(vec![
        found("二重呼ん日", 1, None),
        found("㉔日", 2, Some(4)),
        found("にじゅうよっか", 3, None),
        found("二十余日", 5, Some(5)),
    ]);
    assert_eq!(converter.prefer_numeric_forms("にじゅうよっか", 100), Ok(()));
    assert_eq!(
        listed(&converter),
        vec![
            ("にじゅうよっか", 3),
            ("二十余日", 5),
            ("24日", 100),
            ("２４日", 101),
            ("二十四日", 102)
        ]
    );
    assert_eq!(converter.candidates()[2].segments[0].text_end, 5);
    assert_ne!(
        converter.candidates()[2].annotation.as_str(),
        converter.candidates()[3].annotation.as_str()
    );
}

#[test]
fn round_numbers_of_days_are_offered_as_days() {
    let mut converter = Converter::new(vec![found("重日", 1, None)]);
    assert_eq!(converter.prefer_numeric_forms("じゅうにち", 100), Ok(()));
    assert_eq!(
        listed(&converter)
            .into_iter()
            .map(|(text, _)| text)
            .filter(|text| *text != "重日")
            .collect::<Vec<_>>(),
        vec!["10日", "１０日", "十日"]
    );
}

#[test]
fn a_number_in_the_dictionary_goes_before_one_that_is_made_up() {
    let mut converter = Converter::new(vec![
        found("1日", 1, None),
        found("一日", 50, Some(8)),
    ]);
    assert_eq!(converter.prefer_numeric_forms("ついたち", 100), Ok(()));
    assert_eq!(
        listed(&converter),
        vec![("一日", 50), ("1日", 51), ("１日", 52)]
    );
}

#[test]
fn what_is_no_number_stays_as_it_is() {
    for reading in ["さくら", "し", "よん", "にじゅうよっかめ", ""] {
        let mut converter = Converter::new(vec![found("b", 2, None), found("a", 1, None)]);
        assert_eq!(converter.prefer_numeric_forms(reading, 100), Ok(()));
        assert_eq!(listed(&converter), vec![("b", 2), ("a", 1)], "{reading}");
    }
}

/// An image with single kanji for か, one of them a variant.
fn image_with_kanji() -> Vec<u8> {
    let mut tables: Vec<([u8; 4], Vec<u8>, u32)> = Vec::new();
    let words = |values: &[u32]| -> Vec<u8> {
        values.iter().flat_map(|value| value.to_le_bytes()).collect()
    };
    let mut louds = words(&[1]);
    louds.push(0);
    tables.push((image_format::TAG_LOUDS, louds, 1));
    tables.push((image_format::TAG_NODES, words(&[0, 0, 0, 0]), 1));
    for tag in [
        image_format::TAG_ENTRIES,
        image_format::TAG_SURFACE_OFFSETS,
        image_format::TAG_SURFACES,
        image_format::TAG_ANNOTATION_OFFSETS,
        image_format::TAG_ANNOTATIONS,
        image_format::TAG_ANNOTATION_INDEX,
    ] {
        tables.push((tag, Vec::new(), 0));
    }
    let mut matrix = image_format::MATRIX_MAGIC.to_vec();
    matrix.extend([1, 0, 0, 0]);
    matrix.extend(words(&[0, 0, 0, 0, 0]));
    tables.push((image_format::TAG_MATRIX, matrix, 1));
    tables.push((
        image_format::TAG_SINGLE_KANJI_INDEX,
        words(&[0, 0, 3 | 4 << 16]),
        1,
    ));
    tables.push((
        image_format::TAG_SINGLE_KANJI_READINGS,
        "か".as_bytes().to_vec(),
        3,
    ));
    tables.push((
        image_format::TAG_SINGLE_KANJI_CHARS,
        words(&['可' as u32, '蚊' as u32, '可' as u32, '髙' as u32]),
        4,
    ));
    tables.push((
        image_format::TAG_SINGLE_KANJI_VARIANTS,
        words(&['髙' as u32, '高' as u32, 1]),
        1,
    ));
    let mut image = vec![0; 32 + tables.len() * 16];
    for (index, (tag, bytes, count)) in tables.iter().enumerate() {
        while image.len() % 8 != 0 {
            image.push(0);
        }
        let at = 32 + index * 16;
        let offset = image.len() as u32;
        image[at..at + 4].copy_from_slice(tag);
        image[at + 4..at + 16].copy_from_slice(&words(&[offset, bytes.len() as u32, *count]));
        image.extend_from_slice(bytes);
    }
    let length = image.len() as u32;
    image[..8].copy_from_slice(&image_format::MAGIC);
    image[8..16].copy_from_slice(&words(&[2 | 32 << 16, tables.len() as u32 | 1 << 16]));
    image[16..32].copy_from_slice(&words(&[0, 1, length, 0]));
    image
}

#[test]
fn single_kanji_come_last_and_once() {
    let image = image_with_kanji();
    let dictionary = Dictionary::parse(&image).expect("valid image");
    let mut converter = Converter::new(vec![found("蚊", 40, Some(0)), found("課", 30, Some(1))]);
    assert_eq!(converter.append_single_kanji(&dictionary, "か", 9, 0), Ok(()));
    assert_eq!(
        listed(&converter),
        vec![("蚊", 40), ("課", 30), ("可", 41), ("髙", 44)]
    );
    assert_eq!(converter.candidates()[2].annotation.as_str(), "単漢字");
    assert_eq!(converter.candidates()[3].annotation.as_str(), "異体字（高）");

    let mut short = Converter::new(vec![found("蚊", 40, Some(0)), found("課", 30, Some(1))]);
    assert_eq!(short.append_single_kanji(&dictionary, "か", 3, 0), Ok(()));
    assert_eq!(short.candidates().len(), 3);
    assert_eq!(short.append_single_kanji(&dictionary, "か", 3, 0), Ok(()));
    assert_eq!(short.candidates().len(), 3);

    let mut other = Converter::new(Vec::new());
    assert_eq!(other.append_single_kanji(&dictionary, "き", 9, 0), Ok(()));
    assert!(other.candidates().is_empty());

    let long = "あ".repeat(30_000);
    assert_eq!(
        other.append_single_kanji(&dictionary, &long, 9, 0),
        Err(ConversionError::ReadingTooLong)
    );
}
