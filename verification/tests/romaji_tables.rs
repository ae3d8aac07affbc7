//! Romaji tables and replays.

use sakura_core::config;
use sakura_core::romaji::{
    Input, LocalCompletionError, ReplayError, ReplayEvent, Table, TableErrorKind, MAX_REPLAY_RAW_BYTES,
};

#[test]
fn carries_are_checked_like_sequences() {
    for (source, kind) in [
        ("[kana]\nkk = [\"っ\", \"あ\"]\n", TableErrorKind::NonAsciiCarry),
        ("[kana]\nkk = [\"っ\", \"K\"]\n", TableErrorKind::UppercaseCarry),
        ("[kana]\nkk = [\"っ\", \"k\", \"k\"]\n", TableErrorKind::MalformedValue),
        ("[kana]\nkk = [\"\", \"\"]\n", TableErrorKind::EmptyEntry),
    ] {
        let error = Table::parse(source).expect_err("a fault");
        assert_eq!(error.kind, kind, "source: {source:?}");
        assert_eq!(error.sequence.as_deref(), Some("kk"));
        assert!(error.message().contains("\"kk\""), "{}", error.message());
    }
    assert!(Table::parse("[kana]\n").expect_err("empty").sequence.is_none());
}

#[test]
fn a_document_compiles_to_the_same_table_as_its_text() {
    let source = "[kana]\nb = \"び\"\na = \"あ\"\nab = [\"っ\"]\n";
    let document = config::parse(source).expect("parse");
    let table = Table::from_document(&document).expect("compile");
    assert_eq!(Ok(&table), Table::parse(source).as_ref());
    let sequences: Vec<&str> = table
        .entries()
        .iter()
        .map(|entry| entry.sequence.as_str())
        .collect();
    assert_eq!(sequences, vec!["a", "ab", "b"]);
    assert_eq!(table.index_of("ab"), Some(1));
    assert_eq!(table.index_of("ba"), None);
    assert!(table.extends("a"));
    assert!(!table.extends("ab"));
    assert!(table.extends(""));
}

#[test]
fn typing_and_replaying_give_the_same() {
    let table = Table::builtin().expect("compile");
    for raw in ["konnichiha", "nazka", "ttu", "n", "kyouhaiitenki", "q9!"] {
        let trace = table.replay(raw).expect("bounded");
        let mut state = Input::new();
        let mut out = String::new();
        for c in raw.chars() {
            table.feed(&mut state, c, &mut out).expect("String sink");
        }
        assert_eq!(trace.output(), out);
        assert_eq!(trace.pending(), state.pending());
        assert_eq!(trace.carry_overlap(), state.carry_overlap());
        assert!(trace.events().len() <= raw.len());
        let mut at = 0;
        for event in trace.events() {
            assert_eq!(event.output_start(), at);
            at = event.output_end();
            assert!(event.raw_start() < event.raw_end() && event.raw_end() <= raw.len());
        }
        assert_eq!(at, trace.output().chars().count());
        let committed = table.replay_committed(raw).expect("bounded");
        table.flush(&mut state, &mut out).expect("String sink");
        assert_eq!(committed.output(), out);
        assert!(state.is_empty());
    }
}

#[test]
fn anomalies_are_counted() {
    let table = Table::builtin().expect("compile");
    assert!(table.replay("nazka").expect("bounded").has_one_local_anomaly());
    assert!(table.replay("k").expect("bounded").has_one_local_anomaly());
    assert!(!table.replay("ka").expect("bounded").has_one_local_anomaly());
    assert!(!table.replay("nazqk").expect("bounded").has_one_local_anomaly());
    assert_eq!(table.replay("nazka").expect("bounded").raw_passthrough().len(), 1);
}

#[test]
fn replays_that_cannot_be_held_are_refused() {
    let table = Table::parse(&format!("[kana]\na = \"{}\"\n", "あ".repeat(50))).expect("compile");
    assert_eq!(table.replay("aaaa"), Err(ReplayError::OutputOverflow));
    assert!(table.replay("aaa").is_ok());
    assert_eq!(table.replay("あ"), Err(ReplayError::NonAsciiRaw));
    assert_eq!(
        table.replay(&"b".repeat(MAX_REPLAY_RAW_BYTES + 1)),
        Err(ReplayError::RawTooLong)
    );
    assert!(table.replay(&"b".repeat(MAX_REPLAY_RAW_BYTES)).is_ok());
}

#[test]
fn faults_have_their_own_messages() {
    let all = [
        ReplayError::NonAsciiRaw,
        ReplayError::RawTooLong,
        ReplayError::TraceOverflow,
        ReplayError::OutputOverflow,
    ];
    for (index, fault) in all.iter().enumerate() {
        for other in &all[index + 1..] {
            assert_ne!(fault.message(), other.message());
        }
        assert_eq!(LocalCompletionError::Replay(*fault).message(), fault.message());
    }
    assert_eq!(
        LocalCompletionError::ObservedMismatch.message(),
        "raw replay does not match observed preedit"
    );
}

#[test]
fn completions_come_in_the_order_of_their_keys() {
    let table = Table::builtin().expect("compile");
    let plans = table.plan_local_completions("nazka", "なzか").expect("match");
    let keys: Vec<u8> = plans.iter().map(|plan| plan.key).collect();
    assert_eq!(keys, b"aeiou".to_vec());
    for plan in plans.iter() {
        let mut raw = String::from("nazka");
        raw.insert(usize::from(plan.insertion_at), char::from(plan.key));
        let trace = table.replay(&raw).expect("bounded");
        assert_eq!(trace.output(), plan.corrected_reading.as_str());
        assert_eq!(trace.raw_passthrough_count(), 0);
        assert!(trace.pending().is_empty());
    }
    assert!(plans.get(5).is_none());
}

#[test]
fn the_shipped_table_has_a_mapping_for_each_of_its_lines() {
    let table = Table::builtin().expect("the shipped table must compile");
    assert_eq!(table.len(), 292);
    assert_eq!(table.clone(), table);
    assert_eq!(table.entries()[0].clone(), table.entries()[0]);
}

#[test]
fn what_a_table_gives_is_cloned() {
    let table = Table::builtin().expect("the shipped table must compile");
    let trace = table.replay("nazka").expect("bounded replay");
    assert_eq!(trace.clone(), trace);
    let list = table
        .plan_local_completions("nazka", "なzか")
        .expect("completions");
    assert!(!list.is_empty());
    assert_eq!(list.clone(), list);
    assert_eq!(list.as_slice()[0].clone(), list.as_slice()[0]);
    let error = Table::parse("[kana]\nKA = \"か\"\n").expect_err("a fault");
    assert_eq!(error.clone(), error);
    let event = ReplayEvent::default();
    assert_eq!((event.raw_start(), event.raw_end()), (0, 0));
}
