//! What holds of every table and every input.

use super::completion;
use super::fsm;
use super::fsm::Progress;
use super::replay;
use super::table;
use super::table::{Mapping, Table, TableError};
use super::{
    MAX_REPLAY_EVENTS, MAX_REPLAY_OUTPUT_BYTES, MAX_REPLAY_RAW_BYTES, MAX_SEQUENCE, TABLE_SECTION,
};
use crate::config;
use crate::strings;
use vstd::prelude::*;
#[allow(unused_imports)]
use vstd::utf8::*;

verus! {

/// A table that compiles, the shipped one as any other, has a mapping for every entry of
/// its section, and at least one.
pub proof fn compiled_tables_are_not_empty(source: Seq<char>, compiled: Table)
    requires
        table::source_compiles_to(source, Ok::<Table, TableError>(compiled)),
    ensures
        compiled@.len() > 0,
        config::parsed(source) matches Ok(document) && (config::section_entries(
            document,
            TABLE_SECTION@,
        ) matches Some(entries) && compiled@.len() == entries.len()),
{
    let document = config::parsed(source)->Ok_0;
    let entries = config::section_entries(document, TABLE_SECTION@)->Some_0;
    lemma_compiled_len(entries, entries.len() as int);
    let all = table::compiled_all(entries, entries.len() as int)->Ok_0;
    compiled@.to_multiset_ensures();
    all.to_multiset_ensures();
}

proof fn lemma_compiled_len(entries: Seq<config::EntryView>, n: int)
    requires
        0 <= n,
    ensures
        table::compiled_all(entries, n) matches Ok(all) ==> all.len() == n,
    decreases n,
{
    if n > 0 {
        lemma_compiled_len(entries, n - 1);
    }
}

/// A flush that the sink takes leaves nothing pending.
pub proof fn flush_leaves_nothing_pending(
    t: Seq<Mapping>,
    pending: Seq<char>,
    overlap: int,
    limit: Option<nat>,
    written: Seq<char>,
)
    requires
        table::table_ok(t),
    ensures
        ({
            let p = fsm::driven(t, pending, overlap, limit, written, false);
            p.complete ==> p.candidate.len() == 0 && p.overlap == 0
        }),
    decreases pending.len(),
{
    if pending.len() > 0 {
        fsm::lemma_step_shortens(t, pending);
        flush_leaves_nothing_pending(
            t,
            fsm::step_rest(t, pending),
            fsm::step_overlap(t, pending, overlap),
            limit,
            written + fsm::step_output(t, pending),
        );
    }
}

/// What a resolution leaves pending for the next key is the proper start of an
/// entry, and so it is shorter than the longest one may be.
pub proof fn waiting_romaji_starts_an_entry(
    t: Seq<Mapping>,
    candidate: Seq<char>,
    overlap: int,
    limit: Option<nat>,
    written: Seq<char>,
)
    requires
        table::table_ok(t),
    ensures
        ({
            let p = fsm::driven(t, candidate, overlap, limit, written, true);
            p.complete ==> p.candidate.len() == 0 || (table::has_longer(t, p.candidate)
                && p.candidate.len() < MAX_SEQUENCE)
        }),
    decreases candidate.len(),
{
    if candidate.len() == 0 {
    } else if table::has_longer(t, candidate) {
        let i = choose|i: int| table::starts_with(t, candidate, i);
        assert(table::mapping_ok(t[i]));
    } else {
        fsm::lemma_step_shortens(t, candidate);
        waiting_romaji_starts_an_entry(
            t,
            fsm::step_rest(t, candidate),
            fsm::step_overlap(t, candidate, overlap),
            limit,
            written + fsm::step_output(t, candidate),
        );
    }
}

/// A key means the same in upper and in lower case.
pub proof fn lookup_folds_case(
    t: Seq<Mapping>,
    pending: Seq<char>,
    overlap: int,
    key: char,
    limit: Option<nat>,
    written: Seq<char>,
)
    ensures
        fsm::fed(t, pending, overlap, key, limit, written) == fsm::fed(
            t,
            pending,
            overlap,
            fsm::lower(key),
            limit,
            written,
        ),
{
    assert(fsm::lower(fsm::lower(key)) == fsm::lower(key));
}

/// A key that waits for more emits nothing, and a backspace takes it back.
pub proof fn backspace_takes_back_a_waiting_key(
    t: Seq<Mapping>,
    pending: Seq<char>,
    overlap: int,
    key: char,
    limit: Option<nat>,
    written: Seq<char>,
)
    requires
        table::table_ok(t),
        0 <= overlap <= pending.len() < MAX_SEQUENCE,
        fsm::lower(key) as u32 <= 0x7f,
        table::has_longer(t, pending.push(fsm::lower(key))),
    ensures
        ({
            let p = fsm::fed(t, pending, overlap, key, limit, written);
            &&& p.complete
            &&& p.text == written
            &&& fsm::backspaced(p.candidate, p.overlap) == (pending, overlap)
        }),
{
    assert(pending.push(fsm::lower(key)).drop_last() =~= pending);
}

/// A resolution that a full sink stopped goes on where it stopped: with room, it
/// ends with the text that an unbounded sink would have got at once. Nothing is
/// lost, and nothing is written twice.
pub proof fn a_refused_resolution_resumes(
    t: Seq<Mapping>,
    candidate: Seq<char>,
    overlap: int,
    limit: Option<nat>,
    written: Seq<char>,
    may_wait: bool,
)
    requires
        table::table_ok(t),
    ensures
        ({
            let p = fsm::driven(t, candidate, overlap, limit, written, may_wait);
            fsm::driven(t, candidate, overlap, None, written, may_wait) == fsm::driven(
                t,
                p.candidate,
                p.overlap,
                None,
                p.text,
                may_wait,
            )
        }),
    decreases candidate.len(),
{
    if candidate.len() == 0 || (may_wait && table::has_longer(t, candidate)) {
    } else {
        fsm::lemma_step_shortens(t, candidate);
        a_refused_resolution_resumes(
            t,
            fsm::step_rest(t, candidate),
            fsm::step_overlap(t, candidate, overlap),
            limit,
            written + fsm::step_output(t, candidate),
            may_wait,
        );
    }
}

/// To wait for more and then to flush comes to the same as to flush at once.
pub proof fn waiting_then_flushing_is_flushing(
    t: Seq<Mapping>,
    candidate: Seq<char>,
    overlap: int,
    written: Seq<char>,
)
    requires
        table::table_ok(t),
    ensures
        ({
            let p = fsm::driven(t, candidate, overlap, None, written, true);
            fsm::driven(t, candidate, overlap, None, written, false) == fsm::driven(
                t,
                p.candidate,
                p.overlap,
                None,
                p.text,
                false,
            )
        }),
    decreases candidate.len(),
{
    if candidate.len() == 0 || table::has_longer(t, candidate) {
    } else {
        fsm::lemma_step_shortens(t, candidate);
        waiting_then_flushing_is_flushing(
            t,
            fsm::step_rest(t, candidate),
            fsm::step_overlap(t, candidate, overlap),
            written + fsm::step_output(t, candidate),
        );
    }
}

/// The state after the first `n` keys were typed into an unbounded sink.
pub open spec fn typed(t: Seq<Mapping>, keys: Seq<char>, n: int) -> Progress
    decreases n,
{
    if n <= 0 {
        Progress { candidate: Seq::empty(), overlap: 0, text: Seq::empty(), complete: true }
    } else {
        let p = typed(t, keys, n - 1);
        fsm::fed(t, p.candidate, p.overlap, keys[n - 1], None, p.text)
    }
}

/// The text after all keys were typed and committed.
pub open spec fn committed(t: Seq<Mapping>, keys: Seq<char>) -> Seq<char> {
    let p = typed(t, keys, keys.len() as int);
    fsm::driven(t, p.candidate, p.overlap, None, p.text, false).text
}

/// A replay is the live input: where it finds room, it has the same output and
/// leaves the same romaji pending, with the same carry.
pub proof fn replay_is_live_input(t: Seq<Mapping>, raw: Seq<char>, n: int)
    requires
        table::table_ok(t),
        is_ascii_chars(raw),
        0 <= n <= raw.len(),
        !replay::replayed(t, raw, n).refused,
    ensures
        typed(t, raw, n).complete,
        typed(t, raw, n).text == replay::replayed(t, raw, n).output,
        typed(t, raw, n).candidate == replay::replayed(t, raw, n).candidate,
        typed(t, raw, n).overlap == replay::replayed(t, raw, n).overlap,
    decreases n,
{
    if n > 0 {
        replay_is_live_input(t, raw, n - 1);
        replay::lemma_replayed(t, raw, n - 1);
        let before = replay::replayed(t, raw, n - 1);
        let s = replay::with_key(before, n - 1, raw[n - 1]);
        lemma_traced_is_driven(t, s, true);
    }
}

/// The committed replay has the output of the committed live input.
pub proof fn committed_replay_is_committed_input(t: Seq<Mapping>, raw: Seq<char>)
    requires
        table::table_ok(t),
        is_ascii_chars(raw),
        !replay::replayed_committed(t, raw).refused,
    ensures
        replay::replayed_committed(t, raw).output == committed(t, raw),
{
    let s = replay::replayed(t, raw, raw.len() as int);
    replay_is_live_input(t, raw, raw.len() as int);
    if s.candidate.len() > 0 {
        lemma_traced_is_driven(
            t,
            replay::Replay { start: raw.len() - s.candidate.len(), ..s },
            false,
        );
    }
}

proof fn lemma_traced_is_driven(t: Seq<Mapping>, s: replay::Replay, may_wait: bool)
    requires
        table::table_ok(t),
        !replay::traced(t, s, may_wait).refused,
    ensures
        ({
            let r = replay::traced(t, s, may_wait);
            fsm::driven(t, s.candidate, s.overlap, None, s.output, may_wait) == (Progress {
                candidate: r.candidate,
                overlap: r.overlap,
                text: r.output,
                complete: true,
            })
        }),
    decreases s.candidate.len(),
{
    if s.candidate.len() == 0 || (may_wait && table::has_longer(t, s.candidate)) {
    } else {
        fsm::lemma_step_shortens(t, s.candidate);
        lemma_traced_is_driven(t, replay::after_step(t, s), may_wait);
    }
}

/// Whether emissions cover an output without gaps, in order.
pub open spec fn covers(events: Seq<replay::Emission>, length: int) -> bool {
    if events.len() == 0 {
        length == 0
    } else {
        &&& events[0].output_start == 0
        &&& events.last().output_end == length
        &&& forall|i: int, j: int|
            0 <= i && j == i + 1 && j < events.len() ==> (#[trigger] events[i]).output_end == (
            #[trigger] events[j]).output_start
    }
}

proof fn lemma_covers_push(events: Seq<replay::Emission>, length: int, e: replay::Emission)
    requires
        covers(events, length),
        e.output_start == length,
    ensures
        covers(events.push(e), e.output_end),
{
    let after = events.push(e);
    assert forall|i: int, j: int| 0 <= i && j == i + 1 && j < after.len() implies (
    #[trigger] after[i]).output_end == (#[trigger] after[j]).output_start by {
        assert(after[i] == events[i]);
        if j < events.len() {
            assert(after[j] == events[j]);
        }
    }
}

proof fn lemma_traced_covers(t: Seq<Mapping>, s: replay::Replay, may_wait: bool)
    requires
        table::table_ok(t),
        covers(s.events, s.output.len() as int),
    ensures
        ({
            let r = replay::traced(t, s, may_wait);
            covers(r.events, r.output.len() as int)
        }),
    decreases s.candidate.len(),
{
    if s.candidate.len() == 0 || (may_wait && table::has_longer(t, s.candidate))
        || strings::utf8_len(s.output + fsm::step_output(t, s.candidate))
        > MAX_REPLAY_OUTPUT_BYTES {
    } else {
        fsm::lemma_step_shortens(t, s.candidate);
        let next = replay::after_step(t, s);
        lemma_covers_push(s.events, s.output.len() as int, next.events.last());
        lemma_traced_covers(t, next, may_wait);
    }
}

/// The emissions of a replay cover its output without gaps, each comes from keys that
/// were typed, and there are no more of them than keys: what a replay can hold is
/// always enough.
pub proof fn emissions_cover_the_output(t: Seq<Mapping>, raw: Seq<char>, n: int)
    requires
        table::table_ok(t),
        is_ascii_chars(raw),
        0 <= n <= raw.len(),
    ensures
        ({
            let s = replay::replayed(t, raw, n);
            &&& covers(s.events, s.output.len() as int)
            &&& replay::spans_ok(s.events, n, s.output.len() as int)
            &&& s.events.len() <= n
            &&& n <= MAX_REPLAY_RAW_BYTES ==> s.events.len() < MAX_REPLAY_EVENTS
        }),
    decreases n,
{
    replay::lemma_replayed(t, raw, n);
    if n > 0 {
        emissions_cover_the_output(t, raw, n - 1);
        let before = replay::replayed(t, raw, n - 1);
        if !before.refused {
            lemma_traced_covers(t, replay::with_key(before, n - 1, raw[n - 1]), true);
        }
    }
}

/// Every entry can be reached by typing its own sequence: committed, it gives the
/// entry's output and then what its carry gives alone.
pub proof fn every_entry_is_reachable(t: Seq<Mapping>, i: int)
    requires
        table::table_ok(t),
        0 <= i < t.len(),
    ensures
        committed(t, t[i].sequence) == fsm::driven(
            t,
            t[i].carry,
            t[i].carry.len() as int,
            None,
            t[i].output,
            false,
        ).text,
        t[i].carry.len() == 0 ==> committed(t, t[i].sequence) == t[i].output,
{
    let e = t[i];
    let s = e.sequence;
    let n = s.len() as int;
    assert(table::mapping_ok(e));
    lemma_prefix_waits(t, i, n - 1);
    let before = typed(t, s, n - 1);
    let last = s[n - 1];
    assert(fsm::lower(last) == last) by {
        assert(!table::has_upper(s));
    }
    assert(before.candidate.push(last) =~= s);
    // The last key completes the entry, whether it then waits or not.
    waiting_then_flushing_is_flushing(t, s, 0, Seq::empty());
    fsm::lemma_longest_match(t, s, n);
    assert(s.take(n) =~= s);
    assert(table::is_entry(t, s, i));
    lemma_entry_unique(t, i, table::entry_of(t, s)->0);
    assert(fsm::step_len(t, s) == n);
    assert(fsm::step_entry(t, s) == e);
    assert(s.skip(n) =~= Seq::<char>::empty());
    assert(fsm::step_rest(t, s) =~= e.carry);
    assert(Seq::<char>::empty() + e.output =~= e.output);
}

/// Two entries with the same sequence are one.
proof fn lemma_entry_unique(t: Seq<Mapping>, i: int, j: int)
    requires
        table::table_ok(t),
        0 <= i < t.len(),
        0 <= j < t.len(),
        t[i].sequence == t[j].sequence,
    ensures
        i == j,
{
    crate::strings::lemma_precedes_irreflexive(t[i].sequence);
    if i < j {
        assert(crate::strings::precedes(t[i].sequence, t[j].sequence));
    } else if j < i {
        assert(crate::strings::precedes(t[j].sequence, t[i].sequence));
    }
}

/// The proper start of an entry waits.
proof fn lemma_prefix_waits(t: Seq<Mapping>, i: int, n: int)
    requires
        table::table_ok(t),
        0 <= i < t.len(),
        0 <= n < t[i].sequence.len(),
    ensures
        typed(t, t[i].sequence, n) == (Progress {
            candidate: t[i].sequence.take(n),
            overlap: 0,
            text: Seq::empty(),
            complete: true,
        }),
    decreases n,
{
    let s = t[i].sequence;
    assert(table::mapping_ok(t[i]));
    if n == 0 {
        assert(s.take(0) =~= Seq::<char>::empty());
    } else {
        lemma_prefix_waits(t, i, n - 1);
        let key = s[n - 1];
        assert(fsm::lower(key) == key) by {
            assert(!table::has_upper(s));
        }
        assert(s.take(n - 1).push(key) =~= s.take(n));
        assert(table::starts_with(t, s.take(n), i)) by {
            assert(s.take(n) == s.take(s.take(n).len() as int));
        }
    }
}

/// Completions come in the order of their keys, at most eight of them, and each
/// of them makes everything a reading.
pub proof fn completions_are_readings(
    t: Seq<Mapping>,
    raw: Seq<char>,
    a: replay::Emission,
    key: int,
    room: int,
    i: int,
)
    requires
        0x20 <= key,
        0 <= i < completion::planned(t, raw, a, key, room).len(),
    ensures
        ({
            let all = completion::planned(t, raw, a, key, room);
            &&& all.len() <= room
            &&& key <= all[i].key <= 0x7e
            &&& completion::completes(t, raw, a.raw_end, all[i].key as int)
            &&& i > 0 ==> all[i - 1].key < all[i].key
        }),
    decreases 0x7f - key,
{
    let all = completion::planned(t, raw, a, key, room);
    if completion::completes(t, raw, a.raw_end, key) {
        let rest = completion::planned(t, raw, a, key + 1, room - 1);
        assert(forall|k: int| 0 < k < all.len() ==> all[k] == rest[k - 1]);
        if rest.len() > 0 {
            completions_are_readings(t, raw, a, key + 1, room - 1, if i > 0 {
                i - 1
            } else {
                0
            });
        }
    } else {
        completions_are_readings(t, raw, a, key + 1, room, i);
    }
}

} // verus!
