//! What every key comes to.

use super::fsm;
use super::fsm::Progress;
use super::laws;
use super::replay;
use super::replay::{Emission, Replay, ReplayEventKind};
use super::table;
use super::table::Mapping;
use super::{MAX_REPLAY_OUTPUT_BYTES, MAX_SEQUENCE};
use crate::strings;
use crate::text;
use vstd::prelude::*;
#[allow(unused_imports)]
use vstd::utf8::*;

verus! {

/// A key as it is looked up: a capital letter as the small one.
pub open spec fn small(key: char) -> char {
    if 'A' <= key && key <= 'Z' {
        (key as u32 + 32) as char
    } else {
        key
    }
}

/// Keys as they are looked up.
pub open spec fn smalls(keys: Seq<char>) -> Seq<char> {
    Seq::new(keys.len(), |i: int| small(keys[i]))
}

/// Whether the sequence of an entry stands among keys at `i`.
pub open spec fn stands(m: Mapping, keys: Seq<char>, i: int) -> bool {
    0 <= i && i + m.sequence.len() <= keys.len() && keys.subrange(i, i + m.sequence.len())
        == m.sequence
}

// ---------------------------------------------------------------------------
// Keys without an entry.

/// A key that no entry starts with passes through: it is written behind what was written
/// before, in lower case, and nothing is left pending.
pub proof fn keys_without_an_entry_pass_through(
    t: Seq<Mapping>,
    key: char,
    limit: Option<nat>,
    written: Seq<char>,
)
    requires
        table::table_ok(t),
        forall|i: int| 0 <= i < t.len() ==> (#[trigger] t[i]).sequence[0] != small(key),
        text::fits(limit, written.push(small(key))),
    ensures
        fsm::fed(t, Seq::empty(), 0, key, limit, written) == (Progress {
            candidate: Seq::empty(),
            overlap: 0,
            text: written.push(small(key)),
            complete: true,
        }),
{
    let c = small(key);
    let none = Seq::<char>::empty();
    let one = none.push(c);
    assert(one =~= seq![c]);
    assert forall|i: int| !table::starts_with(t, one, i) by {
        if table::starts_with(t, one, i) {
            assert(t[i].sequence.take(1)[0] == t[i].sequence[0]);
        }
    }
    fsm::lemma_longest_match(t, one, 1);
    assert(one.take(1) =~= one);
    if let Some(i) = table::entry_of(t, one) {
        assert(table::is_entry(t, one, i));
        assert(t[i].sequence[0] == c);
    }
    assert(!fsm::step_matches(t, one));
    assert(fsm::step_rest(t, one) =~= none);
    assert(written + seq![c] =~= written.push(c));
    reveal_with_fuel(fsm::driven, 3);
    assert(fsm::lower(key) == c);
}

/// Whether no sequence stands anywhere among keys.
pub open spec fn untouched(t: Seq<Mapping>, keys: Seq<char>) -> bool {
    forall|i: int, k: int| 0 <= i < t.len() ==> !#[trigger] stands(t[i], keys, k)
}

/// Where no sequence stands among keys, a resolution only passes on.
proof fn lemma_passes_on(
    t: Seq<Mapping>,
    keys: Seq<char>,
    candidate: Seq<char>,
    n: int,
    overlap: int,
    written: Seq<char>,
    may_wait: bool,
)
    requires
        table::table_ok(t),
        untouched(t, keys),
        candidate.len() <= n <= keys.len(),
        candidate == keys.subrange(n - candidate.len(), n),
    ensures
        ({
            let p = fsm::driven(t, candidate, overlap, None, written, may_wait);
            &&& p.complete
            &&& p.text + p.candidate == written + candidate
            &&& p.candidate.len() <= candidate.len()
            &&& p.candidate == keys.subrange(n - p.candidate.len(), n)
            &&& !may_wait ==> p.candidate.len() == 0
        }),
    decreases candidate.len(),
{
    if candidate.len() == 0 || (may_wait && table::has_longer(t, candidate)) {
    } else {
        fsm::lemma_step_shortens(t, candidate);
        if fsm::step_matches(t, candidate) {
            let m = fsm::step_len(t, candidate);
            let i = table::entry_of(t, candidate.take(m))->0;
            assert(table::is_entry(t, candidate.take(m), i));
            let k = n - candidate.len();
            assert(keys.subrange(k, k + m) =~= candidate.take(m));
            assert(stands(t[i], keys, k));
        }
        let rest = fsm::step_rest(t, candidate);
        assert(rest =~= candidate.skip(1));
        assert(rest =~= keys.subrange(n - rest.len(), n));
        let after = written + candidate.take(1);
        lemma_passes_on(
            t,
            keys,
            rest,
            n,
            fsm::step_overlap(t, candidate, overlap),
            after,
            may_wait,
        );
        assert(after + rest =~= written + candidate);
    }
}

/// Whether keys were typed so far without a loss: what was written and what is pending
/// are the keys.
spec fn kept(t: Seq<Mapping>, keys: Seq<char>, n: int) -> bool {
    let p = laws::typed(t, keys, n);
    &&& p.text + p.candidate == smalls(keys).take(n)
    &&& p.candidate.len() <= n
    &&& p.candidate == smalls(keys).subrange(n - p.candidate.len(), n)
}

proof fn lemma_kept(t: Seq<Mapping>, keys: Seq<char>, n: int)
    requires
        table::table_ok(t),
        untouched(t, smalls(keys)),
        0 <= n <= keys.len(),
    ensures
        kept(t, keys, n),
    decreases n,
{
    let low = smalls(keys);
    if n == 0 {
        assert(Seq::<char>::empty() + Seq::<char>::empty() =~= low.take(0));
        assert(low.subrange(0, 0) =~= Seq::<char>::empty());
    } else {
        lemma_kept(t, keys, n - 1);
        let p = laws::typed(t, keys, n - 1);
        let c = small(keys[n - 1]);
        assert(low[n - 1] == c);
        assert(low.take(n) =~= low.take(n - 1).push(c));
        if c as u32 >= 0x80 {
            lemma_passes_on(t, low, p.candidate, n - 1, p.overlap, p.text, false);
            let f = fsm::driven(t, p.candidate, p.overlap, None, p.text, false);
            assert(f.text + f.candidate =~= f.text);
            assert(f.text.push(c) + f.candidate =~= low.take(n));
            assert(low.subrange(n, n) =~= f.candidate);
        } else if p.candidate.len() < MAX_SEQUENCE {
            let longer = p.candidate.push(c);
            assert(longer =~= low.subrange(n - longer.len(), n));
            lemma_passes_on(t, low, longer, n, p.overlap, p.text, true);
            assert(p.text + longer =~= (p.text + p.candidate).push(c));
        } else {
            lemma_passes_on(t, low, p.candidate, n - 1, p.overlap, p.text, false);
            let f = fsm::driven(t, p.candidate, p.overlap, None, p.text, false);
            assert(f.text + f.candidate =~= f.text);
            assert(seq![c] =~= low.subrange(n - 1, n));
            lemma_passes_on(t, low, seq![c], n, 0, f.text, true);
            assert(f.text + seq![c] =~= low.take(n));
        }
    }
}

/// No key is lost: where no sequence of the table stands among what was typed, what is
/// committed is what was typed, in lower case.
pub proof fn keys_are_never_lost(t: Seq<Mapping>, keys: Seq<char>)
    requires
        table::table_ok(t),
        untouched(t, smalls(keys)),
    ensures
        laws::committed(t, keys) == smalls(keys),
{
    let n = keys.len() as int;
    let low = smalls(keys);
    lemma_kept(t, keys, n);
    let p = laws::typed(t, keys, n);
    lemma_passes_on(t, low, p.candidate, n, p.overlap, p.text, false);
    let f = fsm::driven(t, p.candidate, p.overlap, None, p.text, false);
    assert(f.text + f.candidate =~= f.text);
    assert(low.take(n) =~= low);
}

// ---------------------------------------------------------------------------
// Every emission of a replay.

/// Whether what an entry carries on is the end of its sequence, as a doubled consonant
/// carries on the second one.
pub open spec fn carries_its_end(m: Mapping) -> bool {
    m.carry == m.sequence.skip(m.sequence.len() - m.carry.len())
}

/// Whether every entry carries on the end of its sequence.
pub open spec fn faithful(t: Seq<Mapping>) -> bool {
    forall|i: int| 0 <= i < t.len() ==> carries_its_end(#[trigger] t[i])
}

/// Whether an emission is the output of an entry whose sequence was typed there, with
/// `next` for the key that the next emission starts at: the first key that is not used up.
pub open spec fn reads(
    m: Mapping,
    keys: Seq<char>,
    output: Seq<char>,
    e: Emission,
    next: int,
) -> bool {
    &&& stands(m, keys, e.raw_start)
    &&& e.raw_end == e.raw_start + m.sequence.len()
    &&& output.subrange(e.output_start, e.output_end) == m.output
    &&& next == e.raw_end - m.carry.len()
}

/// Whether an emission is a key that was passed through.
pub open spec fn passes(keys: Seq<char>, output: Seq<char>, e: Emission, next: int) -> bool {
    &&& e.raw_end == e.raw_start + 1
    &&& e.output_end == e.output_start + 1
    &&& output[e.output_start] == keys[e.raw_start]
    &&& next == e.raw_end
}

/// Whether an emission is what the keys come to: the output of the longest entry that was
/// typed there, or where none was the key itself.
pub open spec fn explained(
    t: Seq<Mapping>,
    keys: Seq<char>,
    output: Seq<char>,
    e: Emission,
    next: int,
) -> bool {
    &&& 0 <= e.raw_start < e.raw_end <= keys.len()
    &&& 0 <= e.output_start <= e.output_end <= output.len()
    &&& match e.kind {
        ReplayEventKind::Kana => {
            &&& exists|i: int| 0 <= i < t.len() && #[trigger] reads(t[i], keys, output, e, next)
            &&& forall|i: int|
                0 <= i < t.len() && #[trigger] stands(t[i], keys, e.raw_start)
                    ==> t[i].sequence.len() <= e.raw_end - e.raw_start
        },
        ReplayEventKind::RawPassthrough => {
            &&& passes(keys, output, e, next)
            &&& forall|i: int| 0 <= i < t.len() ==> !#[trigger] stands(t[i], keys, e.raw_start)
        },
    }
}

/// Whether emissions are what the keys before `next` come to, one after the other and
/// from the first key on.
pub open spec fn all_explained(
    t: Seq<Mapping>,
    keys: Seq<char>,
    output: Seq<char>,
    events: Seq<Emission>,
    next: int,
) -> bool
    decreases events.len(),
{
    if events.len() == 0 {
        next == 0 && output.len() == 0
    } else {
        &&& explained(t, keys, output, events.last(), next)
        &&& events.last().output_end == output.len()
        &&& all_explained(
            t,
            keys,
            output.take(events.last().output_start),
            events.drop_last(),
            events.last().raw_start,
        )
    }
}

/// What holds of a replay on the way: what is pending is the end of the keys so far.
spec fn on_the_way(t: Seq<Mapping>, keys: Seq<char>, s: Replay, end: int) -> bool {
    &&& 0 <= end <= keys.len()
    &&& s.start + s.candidate.len() == end
    &&& 0 <= s.start
    &&& s.candidate == keys.subrange(s.start, end)
    &&& all_explained(t, keys, s.output, s.events, s.start)
}

proof fn lemma_step_explained(t: Seq<Mapping>, keys: Seq<char>, s: Replay, end: int, may_wait: bool)
    requires
        table::table_ok(t),
        faithful(t),
        on_the_way(t, keys, s, end),
        s.candidate.len() > 0,
        may_wait ==> !table::has_longer(t, s.candidate),
        !may_wait ==> end == keys.len(),
    ensures
        on_the_way(t, keys, replay::after_step(t, s), end),
{
    let c = s.candidate;
    let a = s.start;
    let n = fsm::step_len(t, c);
    let after = replay::after_step(t, s);
    let e = after.events.last();
    fsm::lemma_step_shortens(t, c);
    fsm::lemma_longest_match(t, c, c.len() as int);
    assert(after.events.drop_last() =~= s.events);
    assert(after.output.take(e.output_start) =~= s.output);
    assert(keys.subrange(a, a + n) =~= c.take(n));
    assert forall|i: int| 0 <= i < t.len() && #[trigger] stands(t[i], keys, a) implies t[i].sequence.len()
        <= n && fsm::step_matches(t, c) by {
        let q = t[i].sequence;
        assert(table::mapping_ok(t[i]));
        if q.len() > c.len() {
            assert(q.take(c.len() as int) =~= keys.subrange(a, a + q.len()).take(c.len() as int));
            assert(q.take(c.len() as int) =~= c);
            assert(table::starts_with(t, c, i));
        } else {
            assert(c.take(q.len() as int) =~= q);
            assert(table::is_entry(t, c.take(q.len() as int), i));
            assert(table::entry_of(t, c.take(q.len() as int)) is Some);
        }
    }
    if fsm::step_matches(t, c) {
        let i = table::entry_of(t, c.take(n))->0;
        assert(table::is_entry(t, c.take(n), i));
        let m = t[i];
        assert(m == fsm::step_entry(t, c));
        assert(carries_its_end(m));
        assert(after.output.subrange(e.output_start, e.output_end) =~= m.output);
        assert(reads(m, keys, after.output, e, after.start));
        assert(after.candidate =~= keys.subrange(after.start, end)) by {
            let l = m.carry.len() as int;
            assert forall|k: int| 0 <= k < after.candidate.len() implies after.candidate[k]
                == keys[after.start + k] by {
                if k < l {
                    assert(m.carry[k] == m.sequence[n - l + k]);
                    assert(m.sequence[n - l + k] == c[n - l + k]);
                } else {
                    assert(after.candidate[k] == c[n + k - l]);
                }
            }
        }
    } else {
        assert(after.output[e.output_start] == c[0]);
        assert(passes(keys, after.output, e, after.start));
        assert(after.candidate =~= keys.subrange(after.start, end));
    }
}

proof fn lemma_traced_explained(
    t: Seq<Mapping>,
    keys: Seq<char>,
    s: Replay,
    end: int,
    may_wait: bool,
)
    requires
        table::table_ok(t),
        faithful(t),
        on_the_way(t, keys, s, end),
        !may_wait ==> end == keys.len(),
    ensures
        on_the_way(t, keys, replay::traced(t, s, may_wait), end),
        !may_wait && !replay::traced(t, s, may_wait).refused ==> replay::traced(
            t,
            s,
            may_wait,
        ).candidate.len() == 0,
    decreases s.candidate.len(),
{
    if s.candidate.len() == 0 || (may_wait && table::has_longer(t, s.candidate))
        || strings::utf8_len(s.output + fsm::step_output(t, s.candidate))
        > MAX_REPLAY_OUTPUT_BYTES {
    } else {
        fsm::lemma_step_shortens(t, s.candidate);
        lemma_step_explained(t, keys, s, end, may_wait);
        lemma_traced_explained(t, keys, replay::after_step(t, s), end, may_wait);
    }
}

proof fn lemma_replayed_explained(t: Seq<Mapping>, raw: Seq<char>, n: int) -> (end: int)
    requires
        table::table_ok(t),
        faithful(t),
        0 <= n <= raw.len(),
    ensures
        on_the_way(t, smalls(raw), replay::replayed(t, raw, n), end),
        end <= n,
        !replay::replayed(t, raw, n).refused ==> end == n,
    decreases n,
{
    let keys = smalls(raw);
    if n <= 0 {
        assert(keys.subrange(0, 0) =~= Seq::<char>::empty());
        0
    } else {
        let end = lemma_replayed_explained(t, raw, n - 1);
        let before = replay::replayed(t, raw, n - 1);
        if before.refused {
            end
        } else {
            let s = replay::with_key(before, n - 1, raw[n - 1]);
            assert(s.candidate =~= keys.subrange(s.start, n));
            assert(s.start == before.start);
            lemma_traced_explained(t, keys, s, n, true);
            n
        }
    }
}

/// Every emission of a replay is what the keys come to: from the first key on, each is the
/// output of the longest entry that was typed there, or where no entry was typed the key
/// itself, in lower case. The next one starts behind it, but for what the entry carries on.
/// What is pending is the rest of the keys.
pub proof fn replays_explain_every_key(t: Seq<Mapping>, raw: Seq<char>)
    requires
        table::table_ok(t),
        faithful(t),
        !replay::replayed(t, raw, raw.len() as int).refused,
    ensures
        ({
            let s = replay::replayed(t, raw, raw.len() as int);
            let n = raw.len() - s.candidate.len();
            &&& n >= 0
            &&& all_explained(t, smalls(raw), s.output, s.events, n)
            &&& s.candidate == smalls(raw).skip(n)
        }),
{
    let end = lemma_replayed_explained(t, raw, raw.len() as int);
    let s = replay::replayed(t, raw, raw.len() as int);
    assert(smalls(raw).skip(s.start) =~= smalls(raw).subrange(s.start, end));
}

/// Every emission of a committed replay is what the keys come to, and no key is left.
pub proof fn committed_replays_explain_every_key(t: Seq<Mapping>, raw: Seq<char>)
    requires
        table::table_ok(t),
        faithful(t),
        !replay::replayed_committed(t, raw).refused,
    ensures
        ({
            let s = replay::replayed_committed(t, raw);
            &&& all_explained(t, smalls(raw), s.output, s.events, raw.len() as int)
            &&& s.candidate.len() == 0
        }),
{
    let n = raw.len() as int;
    let end = lemma_replayed_explained(t, raw, n);
    let s = replay::replayed(t, raw, n);
    if s.refused || s.candidate.len() == 0 {
    } else {
        let last = Replay { start: n - s.candidate.len(), ..s };
        assert(last == s);
        lemma_traced_explained(t, smalls(raw), s, n, false);
    }
}

// ---------------------------------------------------------------------------
// Keys behind what is pending.

/// A key goes on from what is pending, while there is room for it: it is resolved together
/// with what was typed before it.
pub proof fn keys_go_on_from_what_is_pending(
    t: Seq<Mapping>,
    pending: Seq<char>,
    overlap: int,
    key: char,
    limit: Option<nat>,
    written: Seq<char>,
)
    requires
        table::table_ok(t),
        key as int <= 127,
        pending.len() < MAX_SEQUENCE,
    ensures
        fsm::fed(t, pending, overlap, key, limit, written) == fsm::driven(
            t,
            pending.push(small(key)),
            overlap,
            limit,
            written,
            true,
        ),
{
}

/// A character that is no key ends what is pending, and comes behind what that came to,
/// as it is.
pub proof fn other_characters_come_behind_what_is_pending(
    t: Seq<Mapping>,
    pending: Seq<char>,
    overlap: int,
    c: char,
    written: Seq<char>,
)
    requires
        table::table_ok(t),
        c as int > 127,
    ensures
        ({
            let flushed = fsm::driven(t, pending, overlap, None, written, false);
            fsm::fed(t, pending, overlap, c, None, written) == (Progress {
                candidate: Seq::empty(),
                overlap: 0,
                text: flushed.text.push(c),
                complete: true,
            })
        }),
{
    laws::flush_leaves_nothing_pending(t, pending, overlap, None, written);
    lemma_unbounded(t, pending, overlap, written, false);
    let flushed = fsm::driven(t, pending, overlap, None, written, false);
    assert(flushed.candidate =~= Seq::<char>::empty());
}

/// Where there is no room for one more key, what is pending ends, and the key starts anew.
pub proof fn keys_without_room_start_anew(
    t: Seq<Mapping>,
    pending: Seq<char>,
    overlap: int,
    key: char,
    written: Seq<char>,
)
    requires
        table::table_ok(t),
        key as int <= 127,
        pending.len() >= MAX_SEQUENCE,
    ensures
        ({
            let flushed = fsm::driven(t, pending, overlap, None, written, false);
            fsm::fed(t, pending, overlap, key, None, written) == fsm::fed(
                t,
                Seq::empty(),
                0,
                key,
                None,
                flushed.text,
            )
        }),
{
    lemma_unbounded(t, pending, overlap, written, false);
    assert(Seq::<char>::empty().push(small(key)) =~= seq![small(key)]);
}

/// A sink without a bound takes everything.
proof fn lemma_unbounded(
    t: Seq<Mapping>,
    candidate: Seq<char>,
    overlap: int,
    written: Seq<char>,
    may_wait: bool,
)
    requires
        table::table_ok(t),
    ensures
        fsm::driven(t, candidate, overlap, None, written, may_wait).complete,
    decreases candidate.len(),
{
    if candidate.len() > 0 && !(may_wait && table::has_longer(t, candidate)) {
        fsm::lemma_step_shortens(t, candidate);
        lemma_unbounded(
            t,
            fsm::step_rest(t, candidate),
            fsm::step_overlap(t, candidate, overlap),
            written + fsm::step_output(t, candidate),
            may_wait,
        );
    }
}

/// A backspace takes the last of the keys that are pending, and no more than what is left
/// of them was carried on.
pub proof fn a_backspace_takes_the_last_key(pending: Seq<char>, overlap: int, key: char)
    requires
        0 <= overlap <= pending.len() + 1,
    ensures
        fsm::backspaced(pending.push(key), overlap).0 == pending,
        fsm::backspaced(pending.push(key), overlap).1 <= pending.len(),
        overlap <= pending.len() ==> fsm::backspaced(pending.push(key), overlap).1 == overlap,
        overlap > pending.len() ==> fsm::backspaced(pending.push(key), overlap).1 == pending.len(),
        fsm::backspaced(Seq::empty(), 0) == (Seq::<char>::empty(), 0int),
{
    assert(pending.push(key).drop_last() =~= pending);
}

} // verus!
