//! Replaying raw romaji with a trace of which input produced which output.

use super::fsm;
use super::table;
use super::table::{Mapping, Table};
use super::{MAX_REPLAY_EVENTS, MAX_REPLAY_OUTPUT_BYTES, MAX_REPLAY_RAW_BYTES, MAX_SEQUENCE};
use crate::strings;
use crate::values::FixedStr;
use vstd::prelude::*;
#[allow(unused_imports)]
use vstd::utf8::*;

verus! {

/// Where an emission comes from.
#[derive(Debug, Clone, Copy, PartialEq, Eq, Structural)]
pub enum ReplayEventKind {
    /// The output of an entry of the table.
    Kana,
    /// A character that no entry matches.
    RawPassthrough,
}

impl Default for ReplayEventKind {
    fn default() -> (r: Self)
        ensures
            r == ReplayEventKind::Kana,
    {
        ReplayEventKind::Kana
    }
}

/// One emission, with the input that it comes from and the output that it is.
///
/// A carry can make the source of an emission overlap with that of the one
/// before it.
#[derive(Debug, Clone, Copy, PartialEq, Eq, Structural)]
pub struct ReplayEvent {
    raw_start: u16,
    raw_end: u16,
    output_start: u16,
    output_end: u16,
    kind: ReplayEventKind,
}

/// The model of one emission.
pub struct Emission {
    pub raw_start: int,
    pub raw_end: int,
    pub output_start: int,
    pub output_end: int,
    pub kind: ReplayEventKind,
}

impl Default for ReplayEvent {
    fn default() -> (r: Self)
        ensures
            r.view() == (Emission {
                raw_start: 0,
                raw_end: 0,
                output_start: 0,
                output_end: 0,
                kind: ReplayEventKind::Kana,
            }),
    {
        ReplayEvent {
            raw_start: 0,
            raw_end: 0,
            output_start: 0,
            output_end: 0,
            kind: ReplayEventKind::Kana,
        }
    }
}

impl ReplayEvent {
    pub closed spec fn view(&self) -> Emission {
        Emission {
            raw_start: self.raw_start as int,
            raw_end: self.raw_end as int,
            output_start: self.output_start as int,
            output_end: self.output_end as int,
            kind: self.kind,
        }
    }

    /// The raw byte that the source starts at.
    pub fn raw_start(&self) -> (n: usize)
        ensures
            n == self.view().raw_start,
    {
        self.raw_start as usize
    }

    /// The raw byte behind the source.
    pub fn raw_end(&self) -> (n: usize)
        ensures
            n == self.view().raw_end,
    {
        self.raw_end as usize
    }

    /// The output character that the emission starts at.
    pub fn output_start(&self) -> (n: usize)
        ensures
            n == self.view().output_start,
    {
        self.output_start as usize
    }

    /// The output character behind the emission.
    pub fn output_end(&self) -> (n: usize)
        ensures
            n == self.view().output_end,
    {
        self.output_end as usize
    }

    /// Where the emission comes from.
    pub fn kind(&self) -> (kind: ReplayEventKind)
        ensures
            kind == self.view().kind,
    {
        self.kind
    }
}

/// Why a replay could not be produced.
#[derive(Debug, Clone, Copy, PartialEq, Eq, Structural)]
pub enum ReplayError {
    /// The input holds a character that is not ASCII.
    NonAsciiRaw,
    /// The input is longer than a replay can be.
    RawTooLong,
    /// There are more emissions than a replay can hold.
    TraceOverflow,
    /// There is more output than a replay can hold.
    OutputOverflow,
}

impl ReplayError {
    /// The text that describes the fault.
    pub open spec fn text_of(self) -> Seq<char> {
        match self {
            ReplayError::NonAsciiRaw => "raw replay requires ASCII input"@,
            ReplayError::RawTooLong => "raw replay exceeds 128 bytes"@,
            ReplayError::TraceOverflow => "raw replay trace buffer overflow"@,
            ReplayError::OutputOverflow => "raw replay output buffer overflow"@,
        }
    }

    /// The text that describes the fault.
    pub fn message(&self) -> (s: String)
        ensures
            s@ == self.text_of(),
    {
        match self {
            ReplayError::NonAsciiRaw => "raw replay requires ASCII input".to_owned(),
            ReplayError::RawTooLong => "raw replay exceeds 128 bytes".to_owned(),
            ReplayError::TraceOverflow => "raw replay trace buffer overflow".to_owned(),
            ReplayError::OutputOverflow => "raw replay output buffer overflow".to_owned(),
        }
    }
}

// ---------------------------------------------------------------------------
// The model.

/// The state of a replay: the unresolved candidate with its carry, the raw byte
/// that its source starts at, what was emitted, and whether an emission was
/// refused for want of room.
pub struct Replay {
    pub candidate: Seq<char>,
    pub overlap: int,
    pub start: int,
    pub output: Seq<char>,
    pub events: Seq<Emission>,
    pub refused: bool,
}

/// The replay after one step of its candidate.
pub open spec fn after_step(t: Seq<Mapping>, s: Replay) -> Replay {
    let n = fsm::step_len(t, s.candidate);
    let out = fsm::step_output(t, s.candidate);
    Replay {
        candidate: fsm::step_rest(t, s.candidate),
        overlap: fsm::step_overlap(t, s.candidate, s.overlap),
        start: s.start + n - fsm::step_carry(t, s.candidate).len(),
        output: s.output + out,
        events: s.events.push(
            Emission {
                raw_start: s.start,
                raw_end: s.start + n,
                output_start: s.output.len() as int,
                output_end: (s.output.len() + out.len()) as int,
                kind: if fsm::step_matches(t, s.candidate) {
                    ReplayEventKind::Kana
                } else {
                    ReplayEventKind::RawPassthrough
                },
            },
        ),
        refused: false,
    }
}

/// Resolves the candidate of a replay by the rules of [`fsm::driven`].
pub open spec fn traced(t: Seq<Mapping>, s: Replay, may_wait: bool) -> Replay
    decreases s.candidate.len(),
    when table::table_ok(t)
{
    if s.candidate.len() == 0 {
        Replay { overlap: 0, ..s }
    } else if may_wait && table::has_longer(t, s.candidate) {
        s
    } else if strings::utf8_len(s.output + fsm::step_output(t, s.candidate))
        > MAX_REPLAY_OUTPUT_BYTES {
        Replay { refused: true, ..s }
    } else {
        proof {
            fsm::lemma_step_shortens(t, s.candidate);
        }
        traced(t, after_step(t, s), may_wait)
    }
}

/// The replay before the first key.
pub open spec fn fresh() -> Replay {
    Replay {
        candidate: Seq::empty(),
        overlap: 0,
        start: 0,
        output: Seq::empty(),
        events: Seq::empty(),
        refused: false,
    }
}

/// A replay with one more key pending.
pub open spec fn with_key(s: Replay, n: int, key: char) -> Replay {
    Replay { candidate: s.candidate.push(fsm::lower(key)), start: n - s.candidate.len(), ..s }
}

/// The replay of the first `n` keys.
pub open spec fn replayed(t: Seq<Mapping>, raw: Seq<char>, n: int) -> Replay
    decreases n,
{
    if n <= 0 {
        fresh()
    } else {
        let before = replayed(t, raw, n - 1);
        if before.refused {
            before
        } else {
            traced(t, with_key(before, n - 1, raw[n - 1]), true)
        }
    }
}

/// The replay of all keys, with what is pending at the end resolved too.
pub open spec fn replayed_committed(t: Seq<Mapping>, raw: Seq<char>) -> Replay {
    let s = replayed(t, raw, raw.len() as int);
    if s.refused || s.candidate.len() == 0 {
        s
    } else {
        traced(t, Replay { start: raw.len() - s.candidate.len(), ..s }, false)
    }
}

/// Whether every emission has its source before `end` and its place in an output
/// of `length` characters, behind the emissions before it.
pub open spec fn spans_ok(events: Seq<Emission>, end: int, length: int) -> bool {
    &&& forall|i: int|
        0 <= i < events.len() ==> 0 <= (#[trigger] events[i]).raw_start < events[i].raw_end <= end
            && 0 <= events[i].output_start <= events[i].output_end <= length
    &&& forall|i: int, j: int|
        0 <= i < j < events.len() ==> (#[trigger] events[i]).output_end <= (
        #[trigger] events[j]).output_start
}

/// What holds of a replay whose source ends at `end`.
pub open spec fn replay_ok(s: Replay, end: int) -> bool {
    &&& spans_ok(s.events, end, s.output.len() as int)
    &&& is_ascii_chars(s.candidate)
    &&& 0 <= s.overlap <= s.candidate.len()
    &&& 0 <= s.start
    &&& s.start + s.candidate.len() == end
    &&& s.events.len() + s.candidate.len() <= end
    &&& strings::utf8_len(s.output) <= MAX_REPLAY_OUTPUT_BYTES
}

/// A step keeps what holds of a replay, and consumes part of its source.
pub proof fn lemma_after_step(t: Seq<Mapping>, s: Replay, end: int)
    requires
        table::table_ok(t),
        replay_ok(s, end),
        s.candidate.len() > 0,
        strings::utf8_len(s.output + fsm::step_output(t, s.candidate)) <= MAX_REPLAY_OUTPUT_BYTES,
    ensures
        replay_ok(after_step(t, s), end),
        after_step(t, s).candidate.len() < s.candidate.len(),
        s.start + fsm::step_len(t, s.candidate) <= end,
{
    fsm::lemma_step_shortens(t, s.candidate);
}

/// Resolution keeps what holds of a replay. With `may_wait`, what it leaves
/// pending is nothing or the start of a longer entry.
pub proof fn lemma_traced(t: Seq<Mapping>, s: Replay, end: int, may_wait: bool)
    requires
        table::table_ok(t),
        replay_ok(s, end),
        !s.refused,
    ensures
        ({
            let r = traced(t, s, may_wait);
            &&& spans_ok(r.events, end, r.output.len() as int)
            &&& is_ascii_chars(r.candidate)
            &&& 0 <= r.overlap <= r.candidate.len()
            &&& r.candidate.len() <= s.candidate.len()
            &&& r.events.len() + r.candidate.len() <= end
            &&& strings::utf8_len(r.output) <= MAX_REPLAY_OUTPUT_BYTES
            &&& !r.refused ==> r.candidate.len() == 0 || (may_wait && table::has_longer(
                t,
                r.candidate,
            ) && r.candidate.len() < MAX_SEQUENCE)
        }),
    decreases s.candidate.len(),
{
    if s.candidate.len() == 0 {
    } else if may_wait && table::has_longer(t, s.candidate) {
        let i = choose|i: int| table::starts_with(t, s.candidate, i);
        assert(table::mapping_ok(t[i]));
    } else if strings::utf8_len(s.output + fsm::step_output(t, s.candidate))
        > MAX_REPLAY_OUTPUT_BYTES {
    } else {
        lemma_after_step(t, s, end);
        lemma_traced(t, after_step(t, s), end, may_wait);
    }
}

/// Between two keys, what is pending is nothing or the start of an entry.
pub proof fn lemma_replayed(t: Seq<Mapping>, raw: Seq<char>, n: int)
    requires
        table::table_ok(t),
        is_ascii_chars(raw),
        0 <= n <= raw.len(),
    ensures
        ({
            let s = replayed(t, raw, n);
            &&& spans_ok(s.events, n, s.output.len() as int)
            &&& is_ascii_chars(s.candidate)
            &&& 0 <= s.overlap <= s.candidate.len()
            &&& s.events.len() + s.candidate.len() <= n
            &&& strings::utf8_len(s.output) <= MAX_REPLAY_OUTPUT_BYTES
            &&& !s.refused ==> s.candidate.len() < MAX_SEQUENCE
        }),
    decreases n,
{
    if n <= 0 {
        assert(encode_utf8(fresh().output) =~= Seq::<u8>::empty());
    } else {
        lemma_replayed(t, raw, n - 1);
        let before = replayed(t, raw, n - 1);
        if !before.refused {
            let s = with_key(before, n - 1, raw[n - 1]);
            assert(replay_ok(s, n));
            lemma_traced(t, s, n, true);
        } else {
            assert(before.events.len() + before.candidate.len() <= n - 1);
        }
    }
}

/// A replay that was refused an emission stays so.
pub proof fn lemma_refused(t: Seq<Mapping>, raw: Seq<char>, n: int, m: int)
    requires
        0 <= n <= m,
        replayed(t, raw, n).refused,
    ensures
        replayed(t, raw, m) == replayed(t, raw, n),
    decreases m - n,
{
    if n < m {
        lemma_refused(t, raw, n, m - 1);
    }
}

// ---------------------------------------------------------------------------
// Executable code.

/// A replay of raw input by the rules of live input. What is pending at the end
/// stays pending.
#[derive(Debug, PartialEq, Eq)]
pub struct ReplayTrace {
    output: FixedStr<MAX_REPLAY_OUTPUT_BYTES>,
    events: Vec<ReplayEvent>,
    pending: FixedStr<MAX_SEQUENCE>,
    carry_overlap: usize,
}

/// The models of a list of emissions.
pub open spec fn emissions(events: Seq<ReplayEvent>) -> Seq<Emission> {
    events.map_values(|e: ReplayEvent| e.view())
}

/// How many emissions pass a character through.
pub open spec fn passthroughs(events: Seq<Emission>) -> int
    decreases events.len(),
{
    if events.len() == 0 {
        0
    } else {
        passthroughs(events.drop_last()) + (if events.last().kind
            == ReplayEventKind::RawPassthrough {
            1int
        } else {
            0
        })
    }
}

impl Clone for ReplayTrace {
    fn clone(&self) -> (r: Self)
        ensures
            r.output_text() == self.output_text(),
            r.trace() == self.trace(),
            r.pending_text() == self.pending_text(),
            r.overlap() == self.overlap(),
    {
        let mut events: Vec<ReplayEvent> = Vec::new();
        let mut i: usize = 0;
        while i < self.events.len()
            invariant
                i <= self.events@.len(),
                events@ == self.events@.take(i as int),
            decreases self.events@.len() - i,
        {
            events.push(self.events[i]);
            i = i + 1;
            assert(events@ =~= self.events@.take(i as int));
        }
        assert(self.events@.take(i as int) =~= self.events@);
        ReplayTrace {
            output: self.output.clone(),
            events,
            pending: self.pending.clone(),
            carry_overlap: self.carry_overlap,
        }
    }
}

impl ReplayTrace {
    /// Whether the trace is that of the given replay.
    pub closed spec fn is(&self, s: Replay) -> bool {
        &&& self.output@ == s.output
        &&& emissions(self.events@) == s.events
        &&& self.pending@ == s.candidate
        &&& self.carry_overlap == s.overlap
    }

    /// What was emitted.
    pub closed spec fn output_text(&self) -> Seq<char> {
        self.output@
    }

    /// The emissions.
    pub closed spec fn trace(&self) -> Seq<Emission> {
        emissions(self.events@)
    }

    /// What is pending.
    pub closed spec fn pending_text(&self) -> Seq<char> {
        self.pending@
    }

    /// How much of it is a carry.
    pub closed spec fn overlap(&self) -> int {
        self.carry_overlap as int
    }

    /// A trace is a replay's when its parts are.
    pub proof fn lemma_is(&self, s: Replay)
        ensures
            self.is(s) <==> self.output_text() == s.output && self.trace() == s.events
                && self.pending_text() == s.candidate && self.overlap() == s.overlap,
    {
    }

    fn new() -> (r: Self)
        ensures
            r.is(fresh()),
            r.output.wf(),
            r.pending.wf(),
    {
        let r = ReplayTrace {
            output: FixedStr::new(),
            events: Vec::new(),
            pending: FixedStr::new(),
            carry_overlap: 0,
        };
        assert(emissions(r.events@) =~= Seq::<Emission>::empty());
        r
    }

    /// What was emitted before what is pending.
    pub fn output(&self) -> (s: &str)
        ensures
            s@ == self.output_text(),
    {
        self.output.as_str()
    }

    /// A copy of what was emitted.
    pub(super) fn output_copy(&self) -> (s: FixedStr<MAX_REPLAY_OUTPUT_BYTES>)
        ensures
            s@ == self.output_text(),
    {
        self.output.clone()
    }

    /// All emissions in order.
    pub fn events(&self) -> (events: &[ReplayEvent])
        ensures
            emissions(events@) == self.trace(),
    {
        self.events.as_slice()
    }

    /// The emissions that pass a character through, in order.
    pub fn raw_passthrough(&self) -> (events: Vec<ReplayEvent>)
        ensures
            emissions(events@) == self.trace().filter(
                |e: Emission| e.kind == ReplayEventKind::RawPassthrough,
            ),
    {
        let ghost raw = |e: Emission| e.kind == ReplayEventKind::RawPassthrough;
        let ghost all = self.trace();
        let mut events: Vec<ReplayEvent> = Vec::new();
        assert(emissions(events@) =~= Seq::<Emission>::empty());
        assert(all.take(0).filter(raw) =~= Seq::<Emission>::empty()) by {
            reveal(Seq::filter);
        }
        let mut i: usize = 0;
        while i < self.events.len()
            invariant
                all == self.trace(),
                raw == (|e: Emission| e.kind == ReplayEventKind::RawPassthrough),
                i <= self.events@.len(),
                emissions(events@) == all.take(i as int).filter(raw),
            decreases self.events@.len() - i,
        {
            let event = self.events[i];
            proof {
                reveal(Seq::filter);
                assert(all.take(i + 1).drop_last() =~= all.take(i as int));
                assert(all.take(i + 1).last() == event.view());
            }
            let ghost before = emissions(events@);
            if event.kind == ReplayEventKind::RawPassthrough {
                events.push(event);
                assert(emissions(events@) =~= before.push(event.view()));
            }
            i = i + 1;
        }
        assert(all.take(i as int) =~= all);
        events
    }

    /// The number of emissions that pass a character through.
    pub fn raw_passthrough_count(&self) -> (n: usize)
        ensures
            n == passthroughs(self.trace()),
    {
        let ghost all = self.trace();
        let mut n: usize = 0;
        let mut i: usize = 0;
        assert(all.take(0) =~= Seq::<Emission>::empty());
        while i < self.events.len()
            invariant
                all == self.trace(),
                i <= self.events@.len(),
                n <= i,
                n == passthroughs(all.take(i as int)),
            decreases self.events@.len() - i,
        {
            proof {
                assert(all.take(i + 1).drop_last() =~= all.take(i as int));
                assert(all.take(i + 1).last() == self.events@[i as int].view());
            }
            if self.events[i].kind == ReplayEventKind::RawPassthrough {
                n = n + 1;
            }
            i = i + 1;
        }
        assert(all.take(i as int) =~= all);
        n
    }

    /// What is left pending.
    pub fn pending(&self) -> (s: &str)
        ensures
            s@ == self.pending_text(),
    {
        self.pending.as_str()
    }

    /// How much of what is pending is a carry.
    pub fn carry_overlap(&self) -> (n: usize)
        ensures
            n == self.overlap(),
    {
        self.carry_overlap
    }

    /// Whether there is exactly one thing that is no kana: a character passed
    /// through, or pending romaji.
    pub fn has_one_local_anomaly(&self) -> (r: bool)
        ensures
            r == ((passthroughs(self.trace()) == 1 && self.pending_text().len() == 0) || (
            passthroughs(self.trace()) == 0 && self.pending_text().len() > 0)),
    {
        let n: usize = self.raw_passthrough_count();
        (n == 1 && self.pending.is_empty()) || (n == 0 && !self.pending.is_empty())
    }
}

impl Table {
    /// Replays raw ASCII input by the rules of live input, and keeps what each
    /// emission comes from.
    pub fn replay(&self, raw: &str) -> (r: Result<ReplayTrace, ReplayError>)
        requires
            self.wf(),
        ensures
            ({
                let s = replayed(self@, raw@, raw@.len() as int);
                if !is_ascii_chars(raw@) {
                    r matches Err(e) && e == ReplayError::NonAsciiRaw
                } else if raw@.len() > MAX_REPLAY_RAW_BYTES {
                    r matches Err(e) && e == ReplayError::RawTooLong
                } else if s.refused {
                    r matches Err(e) && e == ReplayError::OutputOverflow
                } else {
                    r matches Ok(trace) && trace.is(s)
                }
            }),
    {
        if !raw.is_ascii() {
            return Err(ReplayError::NonAsciiRaw);
        }
        proof {
            is_ascii_chars_encode_utf8(raw@);
        }
        let keys: &[u8] = raw.as_bytes();
        if keys.len() > MAX_REPLAY_RAW_BYTES {
            return Err(ReplayError::RawTooLong);
        }
        let ghost t = self@;
        let mut trace = ReplayTrace::new();
        let mut n: usize = 0;
        while n < keys.len()
            invariant
                self.wf(),
                t == self@,
                is_ascii_chars(raw@),
                keys@.len() == raw@.len(),
                keys@ == encode_utf8(raw@),
                keys@.len() <= MAX_REPLAY_RAW_BYTES,
                n <= keys@.len(),
                !replayed(t, raw@, n as int).refused,
                trace.is(replayed(t, raw@, n as int)),
            decreases keys@.len() - n,
        {
            let ghost before = replayed(t, raw@, n as int);
            let byte: u8 = keys[n];
            proof {
                lemma_replayed(t, raw@, n as int);
                is_ascii_chars_encode_utf8(raw@);
                is_ascii_chars_encode_utf8(before.candidate);
            }
            let key: char = if 0x41 <= byte && byte <= 0x5a {
                (byte + 32) as char
            } else {
                byte as char
            };
            assert(key == fsm::lower(raw@[n as int]));
            let start: usize = n - trace.pending.len();
            proof {
                strings::lemma_len_push(trace.pending@, key);
            }
            if trace.pending.push(key).is_err() {
                return Err(ReplayError::TraceOverflow);
            }
            let ghost s = with_key(before, n as int, raw@[n as int]);
            assert(replay_ok(s, n + 1));
            match self.drive_trace(&mut trace, start, n + 1, true, Ghost(s)) {
                Ok(()) => {},
                Err(e) => {
                    proof {
                        lemma_refused(t, raw@, n + 1, raw@.len() as int);
                    }
                    return Err(e);
                },
            }
            n = n + 1;
        }
        Ok(trace)
    }

    /// Replays raw ASCII input and resolves what is pending at the end too.
    pub fn replay_committed(&self, raw: &str) -> (r: Result<ReplayTrace, ReplayError>)
        requires
            self.wf(),
        ensures
            ({
                let s = replayed_committed(self@, raw@);
                if !is_ascii_chars(raw@) {
                    r matches Err(e) && e == ReplayError::NonAsciiRaw
                } else if raw@.len() > MAX_REPLAY_RAW_BYTES {
                    r matches Err(e) && e == ReplayError::RawTooLong
                } else if s.refused {
                    r matches Err(e) && e == ReplayError::OutputOverflow
                } else {
                    r matches Ok(trace) && trace.is(s)
                }
            }),
    {
        let mut trace = match self.replay(raw) {
            Ok(trace) => trace,
            Err(e) => {
                return Err(e);
            },
        };
        if trace.pending.is_empty() {
            return Ok(trace);
        }
        proof {
            lemma_replayed(self@, raw@, raw@.len() as int);
            is_ascii_chars_encode_utf8(raw@);
            is_ascii_chars_encode_utf8(trace.pending@);
        }
        let n: usize = raw.as_bytes().len();
        let start: usize = n - trace.pending.len();
        let ghost s = Replay {
            start: start as int,
            ..replayed(self@, raw@, raw@.len() as int)
        };
        match self.drive_trace(&mut trace, start, n, false, Ghost(s)) {
            Ok(()) => Ok(trace),
            Err(e) => Err(e),
        }
    }

    /// The resolution loop with a trace.
    fn drive_trace(
        &self,
        trace: &mut ReplayTrace,
        source_start: usize,
        source_end: usize,
        may_wait: bool,
        Ghost(begin): Ghost<Replay>,
    ) -> (r: Result<(), ReplayError>)
        requires
            self.wf(),
            old(trace).is(begin),
            begin.start == source_start,
            !begin.refused,
            replay_ok(begin, source_end as int),
            source_end <= MAX_REPLAY_RAW_BYTES,
            begin.candidate.len() <= MAX_SEQUENCE,
        ensures
            ({
                let s = traced(self@, begin, may_wait);
                if s.refused {
                    r matches Err(e) && e == ReplayError::OutputOverflow
                } else {
                    r is Ok && final(trace).is(s)
                }
            }),
    {
        let ghost t = self@;
        let ghost mut s = begin;
        let ghost whole = traced(t, begin, may_wait);
        let mut start: usize = source_start;
        loop
            invariant
                self.wf(),
                t == self@,
                whole == traced(t, begin, may_wait),
                whole == traced(t, s, may_wait),
                !s.refused,
                trace.is(s),
                s.start == start,
                replay_ok(s, source_end as int),
                source_end <= MAX_REPLAY_RAW_BYTES,
                s.candidate.len() <= MAX_SEQUENCE,
            decreases s.candidate.len(),
        {
            if trace.pending.is_empty() {
                trace.carry_overlap = 0;
                return Ok(());
            }
            if may_wait && self.extends(trace.pending.as_str()) {
                return Ok(());
            }
            proof {
                fsm::lemma_step_shortens(t, s.candidate);
            }
            let (next, consumed, carried, index) = self.resolve(&trace.pending);
            let (output, kind): (String, ReplayEventKind) = match index {
                Some(index) => {
                    let entry = &self.entries()[index];
                    assert(t[index as int] == entry.view());
                    (entry.output.clone(), ReplayEventKind::Kana)
                },
                None => {
                    let first = trace.pending.as_str().substring_ascii(0, 1);
                    assert(first@ =~= s.candidate.take(1));
                    (first.to_owned(), ReplayEventKind::RawPassthrough)
                },
            };
            assert(output@ == fsm::step_output(t, s.candidate));
            match trace.push_event(output.as_str(), start, start + consumed, kind) {
                Ok(()) => {},
                Err(e) => {
                    return Err(e);
                },
            }
            proof {
                lemma_after_step(t, s, source_end as int);
                s = after_step(t, s);
            }
            trace.pending = next;
            trace.carry_overlap = carried + (if trace.carry_overlap > consumed {
                trace.carry_overlap - consumed
            } else {
                0
            });
            start = start + consumed - carried;
            assert(trace.is(s));
        }
    }
}

impl ReplayTrace {
    /// Adds one emission.
    fn push_event(
        &mut self,
        output: &str,
        raw_start: usize,
        raw_end: usize,
        kind: ReplayEventKind,
    ) -> (r: Result<(), ReplayError>)
        requires
            raw_start <= raw_end <= MAX_REPLAY_RAW_BYTES,
            strings::utf8_len(old(self).output@) <= MAX_REPLAY_OUTPUT_BYTES,
            old(self).events@.len() < MAX_REPLAY_RAW_BYTES,
        ensures
            final(self).pending == old(self).pending,
            final(self).carry_overlap == old(self).carry_overlap,
            strings::utf8_len(old(self).output@ + output@) > MAX_REPLAY_OUTPUT_BYTES ==> r
                == Err::<(), ReplayError>(ReplayError::OutputOverflow),
            strings::utf8_len(old(self).output@ + output@) <= MAX_REPLAY_OUTPUT_BYTES ==> r is Ok
                && final(self).output@ == old(self).output@ + output@ && emissions(
                final(self).events@,
            ) == emissions(old(self).events@).push(
                Emission {
                    raw_start: raw_start as int,
                    raw_end: raw_end as int,
                    output_start: old(self).output@.len() as int,
                    output_end: (old(self).output@.len() + output@.len()) as int,
                    kind,
                },
            ),
    {
        let ghost before = emissions(self.events@);
        proof {
            strings::lemma_len_bounds(self.output@);
            strings::lemma_len_bounds(self.output@ + output@);
        }
        let output_start: usize = self.output.as_str().unicode_len();
        if self.output.push_str(output).is_err() {
            return Err(ReplayError::OutputOverflow);
        }
        let output_end: usize = output_start + output.unicode_len();
        let event = ReplayEvent {
            raw_start: raw_start as u16,
            raw_end: raw_end as u16,
            output_start: output_start as u16,
            output_end: output_end as u16,
            kind,
        };
        if self.events.len() >= MAX_REPLAY_EVENTS {
            return Err(ReplayError::TraceOverflow);
        }
        self.events.push(event);
        assert(emissions(self.events@) =~= before.push(event.view()));
        Ok(())
    }
}

} // verus!
