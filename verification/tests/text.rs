//! Sinks.

use sakura_core::text::TextSink;
use sakura_core::values::{FixedStr, Overflow};

#[test]
fn string_accepts_everything() {
    let mut sink = String::new();
    TextSink::push_str(&mut sink, "どっかー").expect("String never overflows");
    TextSink::push(&mut sink, '🍣').expect("String never overflows");
    assert_eq!(sink, "どっかー🍣");
}

#[test]
fn fixed_sink_reports_overflow_without_partial_writes() {
    let mut sink = FixedStr::<8>::new();
    sink.push_str("abcdefgh").expect("exactly fits");
    assert_eq!(sink.push_str("i"), Err(Overflow));
    assert_eq!(sink.as_str(), "abcdefgh");
}

#[test]
fn multibyte_characters_count_as_bytes_not_characters() {
    let mut sink = FixedStr::<8>::new();
    sink.push('あ').expect("fits");
    sink.push('い').expect("fits");
    assert_eq!(sink.push('う'), Err(Overflow));
    assert_eq!(sink.as_str(), "あい");
}

fn write_into(sink: &mut impl TextSink) -> Result<(), Overflow> {
    sink.push_str("ok")
}

#[test]
fn mutable_references_forward_to_the_sink() {
    let mut sink = FixedStr::<8>::new();
    write_into(&mut &mut sink).expect("forwards through the reference");
    assert_eq!(sink.as_str(), "ok");
}
