//! The configuration language.

use sakura_core::config::{parse, ParseErrorKind, Value};
use sakura_core::config_text::Writer;

#[test]
fn sections_entries_texts_and_lists_are_read() {
    let document = parse(
        "# a comment\n\n[first]\nkey = \"value\"\nlist = [\"a\", \"b\"]\n[second]\n\"odd key\" = \"\"\n",
    )
    .expect("well formed");
    assert_eq!(document.sections().len(), 2);
    assert_eq!(document.sections()[0].name, "first");
    assert_eq!(document.text("first", "key"), Some("value"));
    assert_eq!(document.text("first", "list"), None);
    match document.value("first", "list") {
        Some(Value::List(items)) => assert_eq!(items.len(), 2),
        _ => panic!("a list was written"),
    }
    assert_eq!(document.text("second", "odd key"), Some(""));
    assert_eq!(document.text("second", "missing"), None);
    assert_eq!(document.text("third", "key"), None);
    assert!(document.section("third").is_none());
    assert_eq!(document.section("first").map(|entries| entries.len()), Some(2));
}

#[test]
fn escapes_are_read() {
    let document = parse("[s]\nk = \"a\\\"b\\\\c\\nd\\te\"\n").expect("well formed");
    assert_eq!(document.text("s", "k"), Some("a\"b\\c\nd\te"));
}

#[test]
fn every_fault_is_named_with_its_line() {
    let cases = [
        ("[s\n", 1, ParseErrorKind::BadHeader),
        ("[s]\na = \"x\"\n[s]\n", 3, ParseErrorKind::DuplicateSection),
        ("a = \"x\"\n", 1, ParseErrorKind::EntryOutsideSection),
        ("[s]\n= \"x\"\n", 2, ParseErrorKind::BadKey),
        ("[s]\na \"x\"\n", 2, ParseErrorKind::MissingEquals),
        ("[s]\na = \"x\"\na = \"y\"\n", 3, ParseErrorKind::DuplicateKey),
        ("[s]\na = 1\n", 2, ParseErrorKind::BadValue),
        ("[s]\na = \"x\n", 2, ParseErrorKind::UnterminatedText),
        ("[s]\na = \"\\q\"\n", 2, ParseErrorKind::BadEscape),
        ("[s]\na = \"x\" y\n", 2, ParseErrorKind::TrailingText),
    ];
    for (source, line, kind) in cases {
        let error = parse(source).expect_err("a fault");
        assert_eq!(error.line, line, "source: {source:?}");
        assert_eq!(error.kind, kind, "source: {source:?}");
        assert!(error.message().contains(&format!("line {line}")), "source: {source:?}");
    }
}

#[test]
fn a_written_document_reads_back() {
    let mut writer = Writer::new();
    writer.write("first", &[("plain", "text"), ("other-key", "あ = [1] # x")]);
    writer.write("second", &[]);
    writer.write("third.part", &[("empty", "")]);
    let text = writer.finish();
    assert_eq!(
        text,
        "[first]\nplain = \"text\"\nother-key = \"あ = [1] # x\"\n\n[second]\n\n[third.part]\nempty = \"\"\n"
    );
    let document = parse(&text).expect("what was written is well formed");
    assert_eq!(document.sections().len(), 3);
    assert_eq!(document.text("first", "plain"), Some("text"));
    assert_eq!(document.text("first", "other-key"), Some("あ = [1] # x"));
    assert_eq!(document.section("second").map(|entries| entries.len()), Some(0));
    assert_eq!(document.text("third.part", "empty"), Some(""));
}
