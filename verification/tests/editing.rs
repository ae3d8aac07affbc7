//! Ways to write a segment.

use sakura_core::editing::{
    identifier_into, transform_into, IdentifierStyle, SegmentTransform,
};
use sakura_core::values::FixedStr;

fn transformed(source: &str, raw: &str, transform: SegmentTransform, cycle: u8) -> String {
    let mut output = FixedStr::<128>::new();
    transform_into(source, raw, transform, cycle, &mut output).expect("fixture fits");
    output.as_str().to_owned()
}

#[test]
fn f6_f8_cover_hiragana_katakana_and_half_katakana() {
    assert_eq!(
        transformed("ガッツ", "gattsu", SegmentTransform::Hiragana, 0),
        "がっつ"
    );
    assert_eq!(
        transformed("がっつ", "gattsu", SegmentTransform::Katakana, 0),
        "ガッツ"
    );
    assert_eq!(
        transformed("がっつ", "gattsu", SegmentTransform::HalfKatakana, 0),
        "ｶﾞｯﾂ"
    );
}

#[test]
fn f9_f10_use_raw_romaji_and_cycle_case() {
    assert_eq!(
        transformed("どっかー", "docker", SegmentTransform::HalfAlnum, 0),
        "docker"
    );
    assert_eq!(
        transformed("どっかー", "docker", SegmentTransform::HalfAlnum, 1),
        "DOCKER"
    );
    assert_eq!(
        transformed("どっかー", "docker", SegmentTransform::FullAlnum, 2),
        "Ｄｏｃｋｅｒ"
    );
}

#[test]
fn identifier_styles_are_generated_without_stored_dictionary_rows() {
    let expected = [
        "pullRequest",
        "pull_request",
        "PULL_REQUEST",
        "pull-request",
    ];
    for (style, expected) in IdentifierStyle::ALL.into_iter().zip(expected) {
        let mut output = FixedStr::<64>::new();
        assert!(identifier_into("Pull request", style, &mut output).expect("fits"));
        assert_eq!(output.as_str(), expected);
    }
}

#[test]
fn non_ascii_surface_is_not_an_identifier() {
    let mut output = FixedStr::<32>::new();
    assert!(!identifier_into("候補03", IdentifierStyle::Camel, &mut output).expect("fits"));
    assert!(output.is_empty());
}

#[test]
fn a_segment_can_stay_as_it_is() {
    assert_eq!(transformed("候補", "x", SegmentTransform::Unchanged, 0), "候補");
    assert_eq!(SegmentTransform::default(), SegmentTransform::Unchanged);
}

#[test]
fn kana_forms_undo_each_other_and_settle() {
    let source = "ぁがっつ、ゔ・ABC漢";
    let katakana = transformed(source, "", SegmentTransform::Katakana, 0);
    assert_eq!(katakana, "ァガッツ、ヴ・ABC漢");
    assert_eq!(transformed(&katakana, "", SegmentTransform::Hiragana, 0), source);
    assert_eq!(transformed(&katakana, "", SegmentTransform::Katakana, 0), katakana);
    assert_eq!(
        transformed(source, "", SegmentTransform::HalfKatakana, 0),
        "ｧｶﾞｯﾂ､ｳﾞ･ABC漢"
    );
}

#[test]
fn letters_go_through_three_cases_and_around() {
    let forms: Vec<String> = (0..6)
        .map(|cycle| transformed("", "Ab-9", SegmentTransform::HalfAlnum, cycle))
        .collect();
    assert_eq!(forms[0], "ab-9");
    assert_eq!(forms[1], "AB-9");
    assert_eq!(forms[2], "Ab-9");
    assert_eq!(forms[3..], forms[..3]);
    assert_eq!(
        transformed("", "a b~", SegmentTransform::FullAlnum, 0),
        "ａ\u{3000}ｂ～"
    );
}

#[test]
fn words_are_found_at_humps_digits_and_marks() {
    for (source, expected) in [
        ("fooBar", "foo_bar"),
        ("HTTPServer", "httpserver"),
        ("  two  words ", "two_words"),
        ("a-b.c", "a_b_c"),
    ] {
        let mut output = String::new();
        assert_eq!(
            identifier_into(source, IdentifierStyle::Snake, &mut output),
            Ok(true)
        );
        assert_eq!(output, expected, "{source}");
    }
    let mut output = String::new();
    assert_eq!(identifier_into("--", IdentifierStyle::Camel, &mut output), Ok(false));
    assert_eq!(identifier_into("", IdentifierStyle::Camel, &mut output), Ok(false));
    assert_eq!(output, "");
}

#[test]
fn forms_stop_where_the_sink_is_full() {
    let mut output = FixedStr::<4>::new();
    assert!(transform_into("あい", "", SegmentTransform::Katakana, 0, &mut output).is_err());
    assert_eq!(output.as_str(), "ア");
}

#[test]
fn identifier_styles_have_names() {
    assert_eq!(IdentifierStyle::Camel.annotation(), "camelCase");
    assert_eq!(IdentifierStyle::ScreamingSnake.annotation(), "SCREAMING_SNAKE");
}
