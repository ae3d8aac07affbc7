//! Which keys complete an input.

use super::completion;
use super::completion::Completion;
use super::replay;
use super::replay::{Emission, Replay, ReplayEventKind};
use super::table::Mapping;
use vstd::prelude::*;

verus! {

/// Whether every emission of a replay is a reading and nothing is pending.
pub open spec fn all_read(s: Replay) -> bool {
    &&& !s.refused
    &&& s.candidate.len() == 0
    &&& forall|i: int| 0 <= i < s.events.len() ==> (#[trigger] s.events[i]).kind == ReplayEventKind::Kana
}

proof fn lemma_passthroughs(events: Seq<Emission>)
    ensures
        replay::passthroughs(events) >= 0,
        replay::passthroughs(events) == 0 <==> forall|i: int|
            0 <= i < events.len() ==> (#[trigger] events[i]).kind == ReplayEventKind::Kana,
    decreases events.len(),
{
    if events.len() > 0 {
        let before = events.drop_last();
        lemma_passthroughs(before);
        assert(events[events.len() - 1] == events.last());
        assert forall|i: int| 0 <= i < before.len() implies before[i] == #[trigger] events[i] by {}
        if forall|i: int| 0 <= i < events.len() ==> (#[trigger] events[i]).kind == ReplayEventKind::Kana {
            assert forall|i: int| 0 <= i < before.len() implies (#[trigger] before[i]).kind
                == ReplayEventKind::Kana by {
                assert(before[i] == events[i]);
            }
        }
    }
}

/// The raw input with a key put in behind the first `at` keys.
pub open spec fn with_key(raw: Seq<char>, at: int, key: char) -> Seq<char> {
    raw.subrange(0, at) + seq![key] + raw.subrange(at, raw.len() as int)
}

/// Whether a key makes all of an input a reading. Capital letters are not tried.
pub open spec fn makes_all_read(t: Seq<Mapping>, raw: Seq<char>, at: int, key: char) -> bool {
    &&& ' ' <= key && key <= '~' && !('A' <= key && key <= 'Z')
    &&& all_read(replay::replayed(t, with_key(raw, at, key), raw.len() as int + 1))
}

proof fn lemma_completes(t: Seq<Mapping>, raw: Seq<char>, at: int, key: int, c: char)
    requires
        0 <= at <= raw.len(),
        0x20 <= key <= 0x7e,
        c as int == key,
    ensures
        completion::completes(t, raw, at, key) == makes_all_read(t, raw, at, c),
        completion::with_key(raw, at, key) == with_key(raw, at, c),
{
    lemma_key(key, c);
    assert(completion::with_key(raw, at, key) =~= with_key(raw, at, c));
    let s = completion::completed(t, raw, at, key);
    lemma_passthroughs(s.events);
}

proof fn lemma_key(key: int, c: char)
    requires
        c as int == key,
        0 <= key <= 0x7e,
    ensures
        key as char == c,
{
}

/// Whether a completion is the one by a key.
pub open spec fn is_by(c: Completion, t: Seq<Mapping>, raw: Seq<char>, a: Emission, key: char) -> bool {
    &&& c.key as int == key as int
    &&& c.insertion_at == a.raw_end
    &&& c.anomaly_start == a.raw_start
    &&& c.anomaly_end == a.raw_end
    &&& c.reading == replay::replayed(t, with_key(raw, a.raw_end, key), raw.len() as int + 1).output
}

proof fn lemma_planned(
    t: Seq<Mapping>,
    raw: Seq<char>,
    a: Emission,
    from: int,
    room: int,
    key: char,
)
    requires
        0 <= a.raw_end <= raw.len(),
        0x20 <= from <= key as int,
        makes_all_read(t, raw, a.raw_end, key),
        completion::planned(t, raw, a, from, room).len() < room,
    ensures
        exists|i: int|
            0 <= i < completion::planned(t, raw, a, from, room).len() && is_by(
                #[trigger] completion::planned(t, raw, a, from, room)[i],
                t,
                raw,
                a,
                key,
            ),
    decreases 0x7f - from,
{
    let all = completion::planned(t, raw, a, from, room);
    if from < key as int {
        if completion::completes(t, raw, a.raw_end, from) {
            let rest = completion::planned(t, raw, a, from + 1, room - 1);
            lemma_planned(t, raw, a, from + 1, room - 1, key);
            let i = choose|i: int| 0 <= i < rest.len() && is_by(#[trigger] rest[i], t, raw, a, key);
            assert(all[i + 1] == rest[i]);
        } else {
            lemma_planned(t, raw, a, from + 1, room, key);
        }
    } else {
        lemma_completes(t, raw, a.raw_end, from, key);
        assert(is_by(all[0], t, raw, a, key));
    }
}

proof fn lemma_planned_are_by(t: Seq<Mapping>, raw: Seq<char>, a: Emission, from: int, room: int, i: int)
    requires
        0 <= a.raw_end <= raw.len(),
        0x20 <= from,
        0 <= i < completion::planned(t, raw, a, from, room).len(),
    ensures
        exists|key: char| #[trigger]
            makes_all_read(t, raw, a.raw_end, key) && is_by(
                completion::planned(t, raw, a, from, room)[i],
                t,
                raw,
                a,
                key,
            ),
    decreases 0x7f - from,
{
    let all = completion::planned(t, raw, a, from, room);
    if completion::completes(t, raw, a.raw_end, from) {
        if i == 0 {
            let key = from as char;
            assert(key as int == from);
            lemma_completes(t, raw, a.raw_end, from, key);
            assert(makes_all_read(t, raw, a.raw_end, key));
            assert(is_by(all[0], t, raw, a, key));
        } else {
            let rest = completion::planned(t, raw, a, from + 1, room - 1);
            assert(all[i] == rest[i - 1]);
            lemma_planned_are_by(t, raw, a, from + 1, room - 1, i - 1);
        }
    } else {
        lemma_planned_are_by(t, raw, a, from + 1, room, i);
    }
}

/// Whether an emission is the only one of a replay that passes a character through.
pub open spec fn is_the_anomaly(s: Replay, e: Emission) -> bool {
    &&& e.kind == ReplayEventKind::RawPassthrough
    &&& exists|k: int|
        0 <= k < s.events.len() && #[trigger] s.events[k] == e && forall|j: int|
            0 <= j < s.events.len() && j != k ==> (#[trigger] s.events[j]).kind == ReplayEventKind::Kana
}

proof fn lemma_anomaly(events: Seq<Emission>, k: int)
    requires
        0 <= k < events.len(),
        events[k].kind == ReplayEventKind::RawPassthrough,
        forall|j: int|
            0 <= j < events.len() && j != k ==> (#[trigger] events[j]).kind == ReplayEventKind::Kana,
    ensures
        replay::passthroughs(events) == 1,
        events.filter(|e: Emission| e.kind == ReplayEventKind::RawPassthrough) == seq![events[k]],
    decreases events.len(),
{
    let raw = |e: Emission| e.kind == ReplayEventKind::RawPassthrough;
    reveal(Seq::filter);
    let before = events.drop_last();
    let n = events.len() - 1;
    assert forall|j: int| 0 <= j < before.len() && j != k implies (#[trigger] before[j]).kind
        == ReplayEventKind::Kana by {
        assert(before[j] == events[j]);
    }
    if k == n {
        lemma_passthroughs(before);
        lemma_none(before);
        assert(events.filter(raw) =~= seq![events[k]]);
    } else {
        lemma_anomaly(before, k);
        assert(events[n].kind == ReplayEventKind::Kana);
        assert(events.last() == events[n]);
    }
}

proof fn lemma_none(events: Seq<Emission>)
    requires
        forall|j: int| 0 <= j < events.len() ==> (#[trigger] events[j]).kind == ReplayEventKind::Kana,
    ensures
        events.filter(|e: Emission| e.kind == ReplayEventKind::RawPassthrough) == Seq::<
            Emission,
        >::empty(),
    decreases events.len(),
{
    reveal(Seq::filter);
    if events.len() > 0 {
        let before = events.drop_last();
        assert forall|j: int| 0 <= j < before.len() implies (#[trigger] before[j]).kind
            == ReplayEventKind::Kana by {
            assert(before[j] == events[j]);
        }
        lemma_none(before);
        assert(events[events.len() - 1] == events.last());
    } else {
        assert(events =~= Seq::<Emission>::empty());
    }
}

/// Where one character was passed through, nothing is pending and there is room for a key,
/// every key that makes all of the input a reading is planned, as long as there are fewer
/// than eight of them: it is put in behind the character, with the reading that it makes.
pub proof fn every_completion_is_planned(
    t: Seq<Mapping>,
    raw: Seq<char>,
    s: Replay,
    e: Emission,
    key: char,
)
    requires
        is_the_anomaly(s, e),
        0 <= e.raw_end <= raw.len(),
        s.candidate.len() == 0,
        raw.len() < 128,
        makes_all_read(t, raw, e.raw_end, key),
        completion::plans(t, raw, s).len() < 8,
    ensures
        exists|i: int|
            0 <= i < completion::plans(t, raw, s).len() && is_by(
                #[trigger] completion::plans(t, raw, s)[i],
                t,
                raw,
                e,
                key,
            ),
{
    let k = choose|k: int|
        0 <= k < s.events.len() && #[trigger] s.events[k] == e && forall|j: int|
            0 <= j < s.events.len() && j != k ==> (#[trigger] s.events[j]).kind == ReplayEventKind::Kana;
    lemma_anomaly(s.events, k);
    lemma_planned(t, raw, e, 0x20, 8, key);
}

/// Nothing else is planned: only where one character was passed through and nothing is
/// pending, and only keys that make all of the input a reading.
pub proof fn every_plan_completes(t: Seq<Mapping>, raw: Seq<char>, s: Replay, e: Emission, i: int)
    requires
        is_the_anomaly(s, e),
        0 <= e.raw_end <= raw.len(),
        0 <= i < completion::plans(t, raw, s).len(),
    ensures
        s.candidate.len() == 0,
        raw.len() < 128,
        exists|key: char| #[trigger]
            makes_all_read(t, raw, e.raw_end, key) && is_by(
                completion::plans(t, raw, s)[i],
                t,
                raw,
                e,
                key,
            ),
{
    let k = choose|k: int|
        0 <= k < s.events.len() && #[trigger] s.events[k] == e && forall|j: int|
            0 <= j < s.events.len() && j != k ==> (#[trigger] s.events[j]).kind == ReplayEventKind::Kana;
    lemma_anomaly(s.events, k);
    lemma_planned_are_by(t, raw, e, 0x20, 8, i);
}

} // verus!
