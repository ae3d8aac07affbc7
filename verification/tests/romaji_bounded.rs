//! Romaji, typed into a sink with a bound.

use sakura_core::romaji::completion::LocalCompletionError;
use sakura_core::romaji::fsm::Input;
use sakura_core::romaji::replay::{ReplayError, ReplayEventKind};
use sakura_core::romaji::table::{Table, TableErrorKind};
use sakura_core::romaji::MAX_REPLAY_RAW_BYTES;
use sakura_core::values::{FixedStr, Overflow};

fn builtin() -> Table {
    Table::builtin().expect("the built-in table must compile")
}

/// Types `input` and leaves pending what is pending, as in the middle of a word.
fn typed(table: &Table, input: &str) -> (String, String) {
    let mut state = Input::new();
    let mut out = FixedStr::<256>::new();
    for c in input.chars() {
        table.feed(&mut state, c, &mut out).expect("room");
    }
    (out.as_str().to_string(), state.pending().to_string())
}

/// Types `input` and commits.
fn committed(table: &Table, input: &str) -> String {
    let mut state = Input::new();
    let mut out = FixedStr::<256>::new();
    for c in input.chars() {
        table.feed(&mut state, c, &mut out).expect("room");
    }
    table.flush(&mut state, &mut out).expect("room");
    assert!(state.is_empty(), "flush must leave nothing pending");
    out.as_str().to_string()
}

#[test]
fn romaji_tests_replay_local_completion_finds_only_table_derived_positive_controls() {
    let table = builtin();

    let nazka = table.replay("nazka").expect("bounded replay");
    assert_eq!(nazka.output(), "なzか");
    assert_eq!(nazka.raw_passthrough_count(), 1);
    assert_eq!(nazka.events()[0].raw_start(), 0);
    assert_eq!(nazka.events()[0].raw_end(), 2);
    assert_eq!(nazka.events()[1].kind(), ReplayEventKind::RawPassthrough);
    assert_eq!(nazka.events()[1].raw_start(), 2);
    assert_eq!(nazka.events()[1].raw_end(), 3);
    assert_eq!(nazka.events()[2].raw_start(), 3);
    assert_eq!(nazka.events()[2].raw_end(), 5);

    let plans = table
        .plan_local_completions("nazka", "なzか")
        .expect("matching observed preedit");
    assert_eq!(plans.len(), 5);
    let nazka_target = plans
        .iter()
        .find(|plan| plan.key == b'e')
        .expect("e completion");
    assert_eq!(nazka_target.corrected_reading.as_str(), "なぜか");
    assert_eq!(nazka_target.insertion_at, 3);
    assert_eq!(
        (nazka_target.anomaly_start, nazka_target.anomaly_end),
        (2, 3)
    );

    let naikniiku = table.replay("naikniiku").expect("bounded replay");
    assert_eq!(naikniiku.output(), "ないkにいく");
    let plans = table
        .plan_local_completions("naikniiku", "ないkにいく")
        .expect("matching observed preedit");
    assert_eq!(plans.len(), 5);
    let naikniiku_target = plans
        .iter()
        .find(|plan| plan.key == b'a')
        .expect("a completion");
    assert_eq!(naikniiku_target.corrected_reading.as_str(), "ないかにいく");
    assert_eq!(naikniiku_target.insertion_at, 4);
    assert_eq!(
        (naikniiku_target.anomaly_start, naikniiku_target.anomaly_end),
        (3, 4)
    );
}

#[test]
fn romaji_tests_replay_local_completion_rejects_normal_or_nonlocal_controls() {
    let table = builtin();

    for (raw, observed, corrected) in [
        ("nazeka", "なぜか", "なぜか"),
        ("naikaniiku", "ないかにいく", "ないかにいく"),
        ("naeka", "なえか", "なぜか"),
        ("nazea", "なぜあ", "なぜあ"),
        ("nazq", "なzq", "なぜか"),
    ] {
        let plans = table
            .plan_local_completions(raw, observed)
            .expect("observed output must match replay");
        assert!(
            plans.is_empty(),
            "unexpected repair for {raw:?} toward {corrected:?}"
        );
    }

    assert_eq!(
        table.plan_local_completions("なぜか", "なぜか"),
        Err(LocalCompletionError::Replay(ReplayError::NonAsciiRaw))
    );
    assert_eq!(
        table.plan_local_completions("nazka", "なぜか"),
        Err(LocalCompletionError::ObservedMismatch)
    );
}

#[test]
fn romaji_tests_replay_preserves_n_prefixes_and_carry_source_overlap() {
    let table = builtin();

    let n = table.replay("n").expect("bounded replay");
    assert_eq!(n.output(), "");
    assert_eq!(n.pending(), "n");
    assert_eq!(n.raw_passthrough_count(), 0);
    assert_eq!(table.replay_committed("n").unwrap().output(), "ん");

    let nn = table.replay("nn").expect("bounded replay");
    assert_eq!(nn.output(), "ん");
    assert!(nn.pending().is_empty());
    assert_eq!(table.replay_committed("nn").unwrap().output(), "ん");
    assert_eq!(table.replay_committed("n'").unwrap().output(), "ん");

    let carry = table.replay("ttu").expect("bounded replay");
    assert_eq!(carry.output(), "っつ");
    assert!(carry.pending().is_empty());
    assert_eq!(carry.carry_overlap(), 0);
    assert_eq!(carry.events().len(), 2);
    assert_eq!(
        (
            carry.events()[0].raw_start(),
            carry.events()[0].raw_end(),
            carry.events()[0].kind()
        ),
        (0, 2, ReplayEventKind::Kana)
    );
    assert_eq!(
        (carry.events()[1].raw_start(), carry.events()[1].raw_end()),
        (1, 3)
    );
}

#[test]
fn romaji_tests_replay_uses_custom_table_and_is_deterministic() {
    let table = Table::parse(
        "[kana]\n\
             qa = \"α\"\n\
             x = \"え\"\n",
    )
    .expect("custom table");
    let trace = table.replay("qx").expect("bounded replay");
    assert_eq!(trace.output(), "qえ");
    assert_eq!(trace.raw_passthrough_count(), 1);
    let plans = table
        .plan_local_completions("qx", "qえ")
        .expect("matching custom replay");
    assert_eq!(plans.len(), 1);
    assert_eq!(plans.get(0).unwrap().key, b'a');
    assert_eq!(plans.get(0).unwrap().insertion_at, 1);
    assert_eq!(plans.get(0).unwrap().corrected_reading.as_str(), "αえ");

    assert_eq!(table.replay("qx").unwrap(), table.replay("qx").unwrap());
    assert_eq!(
        table.replay("t").unwrap().output(),
        table.replay("t").unwrap().output()
    );
    let too_long = "a".repeat(MAX_REPLAY_RAW_BYTES + 1);
    assert_eq!(table.replay(&too_long), Err(ReplayError::RawTooLong));
}

#[test]
fn romaji_tests_the_shipped_table_compiles() {
    let table = builtin();
    assert!(table.len() > 200, "unexpectedly small: {}", table.len());
    assert!(!table.is_empty());
}

#[test]
fn romaji_tests_every_carry_free_entry_is_reachable_by_typing_it() {
    let table = builtin();
    for entry in table.entries() {
        if !entry.carry.is_empty() {
            continue;
        }
        assert_eq!(
            committed(&table, &entry.sequence),
            entry.output,
            "entry {:?} is unreachable",
            entry.sequence
        );
    }
}

#[test]
fn romaji_tests_every_carrying_entry_emits_its_output_and_carries_on() {
    let table = builtin();
    for entry in table.entries() {
        if entry.carry.is_empty() {
            continue;
        }
        let (emitted, _) = typed(&table, &entry.sequence);
        assert_eq!(
            emitted, entry.output,
            "entry {:?} did not emit its output",
            entry.sequence
        );
    }
}

#[test]
fn romaji_tests_vowels_and_basic_syllables() {
    let table = builtin();
    assert_eq!(committed(&table, "aiueo"), "あいうえお");
    assert_eq!(committed(&table, "kakikukeko"), "かきくけこ");
    assert_eq!(committed(&table, "sakura"), "さくら");
    assert_eq!(committed(&table, "nihongo"), "にほんご");
}

#[test]
fn romaji_tests_contracted_sounds() {
    let table = builtin();
    assert_eq!(committed(&table, "kyou"), "きょう");
    assert_eq!(committed(&table, "shain"), "しゃいん");
    assert_eq!(committed(&table, "chotto"), "ちょっと");
    assert_eq!(committed(&table, "jugyou"), "じゅぎょう");
}

#[test]
fn romaji_tests_n_resolves_by_what_follows_it() {
    let table = builtin();
    // Followed by a consonant: ん, and the consonant starts a new sequence.
    assert_eq!(committed(&table, "genki"), "げんき");
    assert_eq!(committed(&table, "shinkansen"), "しんかんせん");
    // Followed by a vowel: the longer reading wins.
    assert_eq!(committed(&table, "kani"), "かに");
    assert_eq!(committed(&table, "sunao"), "すなお");
    // An apostrophe provides a concise ん boundary before a な-row or
    // や-row kana. Without it `honya` reads ほにゃ. With the
    // Microsoft-compatible `nn` rule, `honnya` is ほんや; a third `n`
    // makes the next syllable にゃ.
    assert_eq!(committed(&table, "hon'ya"), "ほんや");
    assert_eq!(committed(&table, "honya"), "ほにゃ");
    assert_eq!(committed(&table, "honnya"), "ほんや");
    assert_eq!(committed(&table, "honnnya"), "ほんにゃ");
    assert_eq!(committed(&table, "konnyaku"), "こんやく");
    assert_eq!(committed(&table, "konnnyaku"), "こんにゃく");
    // Alone at the end of input.
    assert_eq!(committed(&table, "n"), "ん");
    assert_eq!(committed(&table, "pan"), "ぱん");
}

#[test]
fn romaji_tests_microsoft_double_n_commits_n_before_a_vowel() {
    let table = builtin();
    assert_eq!(committed(&table, "hannei"), "はんえい");
    assert_eq!(committed(&table, "minna"), "みんあ");
    assert_eq!(committed(&table, "annai"), "あんあい");
    assert_eq!(committed(&table, "onnanoko"), "おんあのこ");
    // The third `n` begins the following な-row syllable.
    assert_eq!(committed(&table, "minnna"), "みんな");
    assert_eq!(committed(&table, "annnai"), "あんない");
    assert_eq!(committed(&table, "konnnichiha"), "こんにちは");
}

#[test]
fn romaji_tests_a_lone_n_waits_before_committing_to_a_reading() {
    let table = builtin();
    let (emitted, pending) = typed(&table, "n");
    assert_eq!(emitted, "");
    assert_eq!(pending, "n");
}

#[test]
fn romaji_tests_sokuon_comes_from_the_doubled_consonant() {
    let table = builtin();
    assert_eq!(committed(&table, "kekka"), "けっか");
    assert_eq!(committed(&table, "matte"), "まって");
    assert_eq!(committed(&table, "kitto"), "きっと");
    assert_eq!(committed(&table, "asatte"), "あさって");
    assert_eq!(committed(&table, "zasshi"), "ざっし");
    assert_eq!(committed(&table, "happa"), "はっぱ");
    // Explicit small tsu, both spellings.
    assert_eq!(committed(&table, "xtu"), "っ");
    assert_eq!(committed(&table, "ltsu"), "っ");
}

#[test]
fn romaji_tests_doubled_n_is_not_a_sokuon() {
    let table = builtin();
    assert_eq!(committed(&table, "nn"), "ん");
    assert_eq!(committed(&table, "annnai"), "あんない");
}

#[test]
fn romaji_tests_only_n_is_a_complete_entry_that_still_waits_for_more() {
    let table = builtin();
    let mut stalls: Vec<&str> = table
        .entries()
        .iter()
        .filter(|entry| entry.carry.is_empty())
        .filter(|entry| table.extends(&entry.sequence))
        .map(|entry| entry.sequence.as_str())
        .collect();
    stalls.sort_unstable();
    assert_eq!(
        stalls,
        vec!["n"],
        "an entry both commits on its own and waits for more input; \
             review whether the live-typing stall this causes (raw romaji \
             stays on screen until another key or a flush) is intended"
    );
}

#[test]
fn romaji_tests_x_and_l_small_kana_prefixes_stay_in_sync() {
    let table = builtin();
    let x_forms: std::collections::BTreeMap<&str, &str> = table
        .entries()
        .iter()
        .filter(|entry| entry.sequence != "xn")
        .filter_map(|entry| {
            entry
                .sequence
                .strip_prefix('x')
                .map(|rest| (rest, entry.output.as_str()))
        })
        .collect();
    let l_forms: std::collections::BTreeMap<&str, &str> = table
        .entries()
        .iter()
        .filter_map(|entry| {
            entry
                .sequence
                .strip_prefix('l')
                .map(|rest| (rest, entry.output.as_str()))
        })
        .collect();
    assert_eq!(
        x_forms, l_forms,
        "every `x`-prefixed small-kana spelling must have an identical \
             `l`-prefixed twin, and vice versa"
    );
}

#[test]
fn romaji_tests_n_runs_follow_the_microsoft_double_n_rule() {
    let table = builtin();
    assert_eq!(
        committed(&table, "minna"),
        "みんあ",
        "two `n`s commit ん before the vowel"
    );
    assert_eq!(
        committed(&table, "minnna"),
        "みんな",
        "the third `n` starts な"
    );
    assert_eq!(committed(&table, "nn"), "ん");
    assert_eq!(
        committed(&table, "nnn"),
        "んん",
        "the remaining `n` becomes its own ん on commit"
    );
    assert_eq!(committed(&table, "denn"), "でん");
    assert_eq!(
        committed(&table, "dennn"),
        "でんん",
        "the third `n` is a separate trailing ん"
    );
}

#[test]
fn romaji_tests_every_carrying_entry_resolves_deterministically_when_flushed_alone() {
    let table = builtin();
    for entry in table.entries() {
        if entry.carry.is_empty() {
            continue;
        }
        let expected = format!("{}{}", entry.output, entry.carry);
        assert_eq!(
            committed(&table, &entry.sequence),
            expected,
            "entry {:?} did not resolve to output+carry when flushed alone",
            entry.sequence
        );
    }
}

#[test]
fn romaji_tests_punctuation_and_the_long_vowel_mark() {
    let table = builtin();
    assert_eq!(committed(&table, "ra-men"), "らーめん");
    assert_eq!(committed(&table, "a,bi."), "あ、び。");
    assert_eq!(committed(&table, "[a]"), "「あ」");
    assert_eq!(committed(&table, "a/i"), "あ・い");
}

#[test]
fn romaji_tests_apostrophe_disambiguates_n_and_is_inert_elsewhere() {
    let table = builtin();
    assert_eq!(committed(&table, "n'"), "ん");
    let (emitted, pending) = typed(&table, "n'");
    assert_eq!(emitted, "ん", "`n'` should commit without waiting for more");
    assert_eq!(pending, "");
    // A second word pair alongside hon'ya/honya/honnnya, so the earlier
    // result is not an artifact of that one word's shape.
    assert_eq!(committed(&table, "kon'yaku"), "こんやく");
    assert_eq!(committed(&table, "konyaku"), "こにゃく");
    assert_eq!(committed(&table, "konnnyaku"), "こんにゃく");
    // With no preceding `n` to disambiguate, the apostrophe means
    // nothing and passes through like any other unmapped character --
    // it must not silently vanish.
    assert_eq!(committed(&table, "'"), "'");
    assert_eq!(committed(&table, "a'i"), "あ'い");
}

#[test]
fn romaji_tests_unmapped_letters_pass_through() {
    let table = builtin();
    assert_eq!(committed(&table, "docker"), "どcけr");
    assert_eq!(committed(&table, "kit"), "きt");
    assert_eq!(committed(&table, "q"), "q");
    assert_eq!(committed(&table, "!?"), "!?");
}

#[test]
fn romaji_tests_lookup_folds_ascii_case() {
    let table = builtin();
    assert_eq!(committed(&table, "KA"), "か");
    assert_eq!(committed(&table, "KoNnNiChiHa"), "こんにちは");
}

#[test]
fn romaji_tests_non_ascii_input_flushes_pending_then_passes_through() {
    let table = builtin();
    assert_eq!(committed(&table, "kan字"), "かん字");
    assert_eq!(committed(&table, "a🍣"), "あ🍣");
}

#[test]
fn romaji_tests_backspace_eats_pending_romaji_before_kana() {
    let table = builtin();
    let mut state = Input::new();
    let mut out = String::new();
    for c in "kaky".chars() {
        table.feed(&mut state, c, &mut out).expect("String sink");
    }
    assert_eq!(out, "か");
    assert_eq!(state.pending(), "ky");

    assert!(state.backspace());
    assert_eq!(state.pending(), "k");
    assert!(state.backspace());
    assert_eq!(state.pending(), "");
    // Nothing pending: the backspace belongs to the emitted kana instead.
    assert!(!state.backspace());
}

#[test]
fn romaji_tests_clear_discards_pending_without_emitting() {
    let table = builtin();
    let mut state = Input::new();
    let mut out = String::new();
    table.feed(&mut state, 'k', &mut out).expect("String sink");
    state.clear();
    table.flush(&mut state, &mut out).expect("String sink");
    assert_eq!(out, "");
}

#[test]
fn romaji_tests_a_full_sink_reports_overflow_instead_of_truncating_silently() {
    let table = builtin();
    let mut state = Input::new();
    // 3 bytes per kana: two fit, the third does not.
    let mut out = FixedStr::<6>::new();
    table.feed(&mut state, 'a', &mut out).expect("fits");
    table.feed(&mut state, 'i', &mut out).expect("fits");
    assert_eq!(table.feed(&mut state, 'u', &mut out), Err(Overflow));
    assert_eq!(out.as_str(), "あい");
}

#[test]
fn romaji_tests_overflow_preserves_unconsumed_suffix_after_partial_resolution() {
    let table = builtin();
    let mut state = Input::new();
    table
        .feed(&mut state, 'n', &mut String::new())
        .expect("String sink");

    // Exactly enough room for ん (3 bytes) and no more.
    let mut out = FixedStr::<3>::new();
    assert_eq!(table.feed(&mut state, 'q', &mut out), Err(Overflow));
    assert_eq!(out.as_str(), "ん", "the step that fit must still land");
    assert_eq!(
        state.pending(),
        "q",
        "the step that didn't fit must survive as pending, not vanish"
    );

    // A later flush to a sink with room recovers exactly the part that
    // overflowed -- nothing was lost, and nothing was emitted twice.
    let mut flushed = String::new();
    table.flush(&mut state, &mut flushed).expect("String sink");
    assert_eq!(flushed, "q");
}

#[test]
fn romaji_tests_non_ascii_overflow_never_loses_the_current_character() {
    let table = builtin();
    let mut state = Input::new();
    table
        .feed(&mut state, 'n', &mut String::new())
        .expect("String sink");

    // Exactly enough room for ん (3 bytes) and no more, so ん flushes
    // clean but 字 has nowhere to go.
    let mut out = FixedStr::<3>::new();
    assert_eq!(table.feed(&mut state, '字', &mut out), Err(Overflow));
    assert_eq!(out.as_str(), "ん");
    assert_eq!(
        state.pending(),
        "",
        "字 is not ASCII, so unlike the suffix case above it cannot be \
             held in Input's pending buffer -- there is nowhere in Input \
             for it to survive an overflow"
    );

    // Retrying the exact same key against a sink with room recovers it.
    let mut retry = String::new();
    table
        .feed(&mut state, '字', &mut retry)
        .expect("retry with room must succeed");
    assert_eq!(retry, "字");
}

#[test]
fn romaji_tests_whole_word_corpus_crosses_entry_boundaries_correctly() {
    let table = builtin();
    let cases = [
        ("ohayou", "おはよう"),
        ("arigatou", "ありがとう"),
        ("sayounara", "さようなら"),
        // sokuon immediately followed by the carried consonant + vowel.
        ("shuppatsu", "しゅっぱつ"),
        ("kekkon", "けっこん"),
        ("kippu", "きっぷ"),
        ("kitte", "きって"),
        ("zutto", "ずっと"),
        // a multi-char entry (`chi`) immediately followed by a plain
        // vowel that must not be absorbed into it.
        ("chiisai", "ちいさい"),
        // `s` alone is not a complete entry -- must wait for `sha`, not
        // misresolve partway through.
        ("kaisha", "かいしゃ"),
        // youon (`gyu`, `nyu`) next to a plain vowel and next to `n`.
        ("gyuunyuu", "ぎゅうにゅう"),
        // v-row, a mapped run next to an unmapped punctuation character.
        ("vaiorin", "ゔぁいおりん"),
        ("sugoi!", "すごい!"),
    ];
    for (input, expected) in cases {
        assert_eq!(committed(&table, input), expected, "input {input:?}");
    }
}

#[test]
fn romaji_tests_hannei_can_be_typed_continuously_with_double_n() {
    let table = builtin();
    assert_eq!(committed(&table, "hannei"), "はんえい");
}

#[test]
fn romaji_tests_a_minimal_table_compiles_and_works() {
    let table =
        Table::parse("[kana]\nka = \"か\"\nki = \"き\"\nkk = [\"っ\", \"k\"]\n").expect("compile");
    assert_eq!(table.len(), 3);
    assert_eq!(committed(&table, "kakki"), "かっき");
    // `k` alone has no reading; it waits, then passes through on commit.
    assert_eq!(committed(&table, "k"), "k");
    // Nothing in this table reads `z`, so it goes straight out.
    assert_eq!(committed(&table, "zka"), "zか");
}

#[test]
fn romaji_tests_every_malformed_table_names_its_fault() {
    let cases: [(&str, TableErrorKind); 8] = [
        ("[other]\na = \"あ\"\n", TableErrorKind::MissingSection),
        ("[kana]\n", TableErrorKind::EmptyTable),
        (
            "[kana]\n\"あ\" = \"あ\"\n",
            TableErrorKind::NonAsciiSequence,
        ),
        ("[kana]\nA = \"あ\"\n", TableErrorKind::UppercaseSequence),
        (
            "[kana]\nabcdefghi = \"あ\"\n",
            TableErrorKind::SequenceTooLong,
        ),
        ("[kana]\na = []\n", TableErrorKind::MalformedValue),
        ("[kana]\na = \"\"\n", TableErrorKind::EmptyEntry),
        (
            "[kana]\nkk = [\"っ\", \"kk\"]\n",
            TableErrorKind::CarryNotShorter,
        ),
    ];
    for (source, expected) in cases {
        let error = Table::parse(source).expect_err("expected a table error");
        assert_eq!(error.kind, expected, "source: {source:?}");
    }
}

#[test]
fn romaji_tests_a_config_error_is_reported_as_one() {
    let error = Table::parse("[kana]\na = 1\n").expect_err("expected an error");
    assert!(matches!(error.kind, TableErrorKind::Config(_)));
    assert!(error.message().contains("line 2"));
}

#[test]
fn romaji_tests_a_self_referential_carry_is_rejected() {
    let error = Table::parse("[kana]\nab = [\"x\", \"ab\"]\n").expect_err("expected an error");
    assert_eq!(error.kind, TableErrorKind::CarryNotShorter);
}

#[test]
fn romaji_tests_arbitrary_input_terminates_and_never_panics() {
    let table = builtin();
    // xorshift64*
    let mut state = 0x9E37_79B9_7F4A_7C15u64;
    let mut next = move || {
        state ^= state >> 12;
        state ^= state << 25;
        state ^= state >> 27;
        state.wrapping_mul(0x2545_F491_4F6C_DD1D)
    };

    for _ in 0..20_000 {
        let length = (next() % 16) as usize;
        let mut input = Input::new();
        let mut out = String::new();
        for _ in 0..length {
            // The printable ASCII range plus a few characters outside it.
            let c = match next() % 32 {
                0 => 'あ',
                1 => '\u{3000}',
                n => char::from(0x20 + (n as u8 - 2) % 0x5F),
            };
            let _ = table.feed(&mut input, c, &mut out);
        }
        let _ = table.flush(&mut input, &mut out);
        assert!(input.is_empty(), "flush left {:?} pending", input.pending());
    }
}
