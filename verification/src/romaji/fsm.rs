//! Pending romaji, and the resolution of typed characters into kana.

use super::table;
use super::table::{Mapping, Table};
use super::MAX_SEQUENCE;
use crate::strings;
use crate::text;
use crate::text::TextSink;
use crate::values::{FixedStr, Overflow};
use vstd::prelude::*;
#[allow(unused_imports)]
use vstd::utf8::*;

verus! {

// ---------------------------------------------------------------------------
// The model.

/// How many characters of a candidate one step consumes: the longest match, or
/// one character where nothing matches.
pub open spec fn step_len(t: Seq<Mapping>, candidate: Seq<char>) -> int {
    let n = table::longest_match(t, candidate, candidate.len() as int);
    if n > 0 {
        n
    } else {
        1
    }
}

/// Whether one step of a candidate resolves an entry.
pub open spec fn step_matches(t: Seq<Mapping>, candidate: Seq<char>) -> bool {
    table::longest_match(t, candidate, candidate.len() as int) > 0
}

/// The entry that one step of a candidate resolves.
pub open spec fn step_entry(t: Seq<Mapping>, candidate: Seq<char>) -> Mapping {
    t[table::entry_of(t, candidate.take(step_len(t, candidate)))->0]
}

/// What one step of a candidate emits: the output of the entry, or the first
/// character unchanged.
pub open spec fn step_output(t: Seq<Mapping>, candidate: Seq<char>) -> Seq<char> {
    if step_matches(t, candidate) {
        step_entry(t, candidate).output
    } else {
        candidate.take(1)
    }
}

/// The romaji that one step of a candidate feeds back.
pub open spec fn step_carry(t: Seq<Mapping>, candidate: Seq<char>) -> Seq<char> {
    if step_matches(t, candidate) {
        step_entry(t, candidate).carry
    } else {
        Seq::empty()
    }
}

/// What one step of a candidate leaves.
pub open spec fn step_rest(t: Seq<Mapping>, candidate: Seq<char>) -> Seq<char> {
    step_carry(t, candidate) + candidate.skip(step_len(t, candidate))
}

/// The leading characters of what is left that are no fresh input: the carry,
/// and what the step left of those before it.
pub open spec fn step_overlap(t: Seq<Mapping>, candidate: Seq<char>, overlap: int) -> int {
    let n = step_len(t, candidate);
    step_carry(t, candidate).len() + (if overlap > n {
        overlap - n
    } else {
        0
    })
}

/// Every step leaves less than there was: this is why resolution terminates.
pub proof fn lemma_step_shortens(t: Seq<Mapping>, candidate: Seq<char>)
    requires
        table::table_ok(t),
        candidate.len() > 0,
    ensures
        1 <= step_len(t, candidate) <= candidate.len(),
        step_rest(t, candidate).len() < candidate.len(),
        step_matches(t, candidate) ==> ({
            let e = step_entry(t, candidate);
            &&& table::entry_of(t, candidate.take(step_len(t, candidate))) is Some
            &&& e.sequence == candidate.take(step_len(t, candidate))
            &&& table::mapping_ok(e)
        }),
        is_ascii_chars(candidate) ==> is_ascii_chars(step_rest(t, candidate)),
{
    lemma_longest_match(t, candidate, candidate.len() as int);
    if step_matches(t, candidate) {
        let n = step_len(t, candidate);
        let i = table::entry_of(t, candidate.take(n))->0;
        assert(table::is_entry(t, candidate.take(n), i));
        assert(table::mapping_ok(t[i]));
    }
}

/// The longest match is an entry, and no longer prefix is one.
pub proof fn lemma_longest_match(t: Seq<Mapping>, s: Seq<char>, n: int)
    requires
        n >= 0,
    ensures
        0 <= table::longest_match(t, s, n) <= n,
        table::longest_match(t, s, n) > 0 ==> table::entry_of(
            t,
            s.take(table::longest_match(t, s, n)),
        ) is Some,
        forall|k: int|
            table::longest_match(t, s, n) < k <= n ==> table::entry_of(t, #[trigger] s.take(k))
                is None,
    decreases n,
{
    if n > 0 && table::entry_of(t, s.take(n)) is None {
        lemma_longest_match(t, s, n - 1);
    }
}

/// The state of a resolution: what is left of the candidate, how much of it is
/// no fresh input, the text written, and whether the sink took all of it.
pub struct Progress {
    pub candidate: Seq<char>,
    pub overlap: int,
    pub text: Seq<char>,
    pub complete: bool,
}

/// Resolves a candidate step by step, until nothing is left, or with `may_wait`
/// until what is left could still grow into a longer entry, or until the sink
/// refuses an emission.
pub open spec fn driven(
    t: Seq<Mapping>,
    candidate: Seq<char>,
    overlap: int,
    limit: Option<nat>,
    written: Seq<char>,
    may_wait: bool,
) -> Progress
    decreases candidate.len(),
    when table::table_ok(t)
{
    if candidate.len() == 0 {
        Progress { candidate, overlap: 0, text: written, complete: true }
    } else if may_wait && table::has_longer(t, candidate) {
        Progress { candidate, overlap, text: written, complete: true }
    } else if !text::fits(limit, written + step_output(t, candidate)) {
        Progress { candidate, overlap, text: written, complete: false }
    } else {
        proof {
            lemma_step_shortens(t, candidate);
        }
        driven(
            t,
            step_rest(t, candidate),
            step_overlap(t, candidate, overlap),
            limit,
            written + step_output(t, candidate),
            may_wait,
        )
    }
}

/// A character in lower case.
pub open spec fn lower(c: char) -> char {
    if 'A' <= c && c <= 'Z' {
        (c as u32 + 32) as char
    } else {
        c
    }
}

/// The state after one more typed character.
pub open spec fn fed(
    t: Seq<Mapping>,
    pending: Seq<char>,
    overlap: int,
    key: char,
    limit: Option<nat>,
    written: Seq<char>,
) -> Progress {
    let c = lower(key);
    if c as u32 >= 0x80 {
        let flushed = driven(t, pending, overlap, limit, written, false);
        if !flushed.complete {
            flushed
        } else if text::fits(limit, flushed.text.push(c)) {
            Progress { text: flushed.text.push(c), ..flushed }
        } else {
            Progress { complete: false, ..flushed }
        }
    } else if pending.len() < MAX_SEQUENCE {
        driven(t, pending.push(c), overlap, limit, written, true)
    } else {
        let flushed = driven(t, pending, overlap, limit, written, false);
        if !flushed.complete {
            flushed
        } else {
            driven(t, seq![c], 0, limit, flushed.text, true)
        }
    }
}

/// Pending romaji and its carry without the last character.
pub open spec fn backspaced(pending: Seq<char>, overlap: int) -> (Seq<char>, int) {
    if pending.len() == 0 {
        (pending, overlap)
    } else {
        let rest = pending.drop_last();
        (
            rest,
            if overlap <= rest.len() {
                overlap
            } else {
                rest.len() as int
            },
        )
    }
}

// ---------------------------------------------------------------------------
// Executable code.

/// Pending input. One for each session.
#[derive(Debug, PartialEq, Eq)]
pub struct Input {
    pending: FixedStr<MAX_SEQUENCE>,
    /// How many leading bytes of `pending` are a carry: romaji that resolved an
    /// earlier kana and was fed back.
    carry_overlap: usize,
}

impl Clone for Input {
    fn clone(&self) -> (r: Self)
        ensures
            r.text() == self.text(),
            r.overlap() == self.overlap(),
    {
        Input { pending: self.pending.clone(), carry_overlap: self.carry_overlap }
    }
}

impl Default for Input {
    fn default() -> (r: Self)
        ensures
            r.wf(),
            r.text() == Seq::<char>::empty(),
            r.overlap() == 0,
    {
        Input::new()
    }
}

impl Input {
    /// The pending romaji.
    pub closed spec fn text(&self) -> Seq<char> {
        self.pending@
    }

    /// How much of it is a carry.
    pub closed spec fn overlap(&self) -> int {
        self.carry_overlap as int
    }

    /// Whether the pending romaji is ASCII and bounded, and the carry no longer
    /// than it.
    pub open spec fn wf(&self) -> bool {
        &&& is_ascii_chars(self.text())
        &&& self.text().len() <= MAX_SEQUENCE
        &&& 0 <= self.overlap() <= self.text().len()
    }

    /// A fresh, empty input state.
    pub fn new() -> (r: Self)
        ensures
            r.wf(),
            r.text() == Seq::<char>::empty(),
            r.overlap() == 0,
    {
        Input { pending: FixedStr::new(), carry_overlap: 0 }
    }

    /// The romaji typed so far that has not yet resolved to kana.
    pub fn pending(&self) -> (s: &str)
        ensures
            s@ == self.text(),
    {
        self.pending.as_str()
    }

    /// How many leading bytes of [`Input::pending`] are a carry rather than a
    /// fresh keystroke.
    pub fn carry_overlap(&self) -> (n: usize)
        requires
            self.wf(),
        ensures
            n == self.overlap(),
    {
        self.carry_overlap
    }

    /// Whether nothing is pending.
    pub fn is_empty(&self) -> (r: bool)
        ensures
            r == (self.text().len() == 0),
    {
        self.pending.is_empty()
    }

    /// Discards pending romaji without emitting anything.
    pub fn clear(&mut self)
        ensures
            final(self).wf(),
            final(self).text() == Seq::<char>::empty(),
            final(self).overlap() == 0,
    {
        self.pending.clear();
        self.carry_overlap = 0;
    }

    /// Removes the last pending character. `false` where there was none: the
    /// backspace then belongs to the kana already emitted.
    pub fn backspace(&mut self) -> (removed: bool)
        requires
            old(self).wf(),
        ensures
            final(self).wf(),
            removed == (old(self).text().len() > 0),
            (final(self).text(), final(self).overlap()) == backspaced(
                old(self).text(),
                old(self).overlap(),
            ),
    {
        proof {
            is_ascii_chars_encode_utf8(self.pending@);
        }
        match self.pending.pop_char() {
            Some(_) => {
                proof {
                    is_ascii_chars_encode_utf8(self.pending@);
                }
                let n: usize = self.pending.len();
                if self.carry_overlap > n {
                    self.carry_overlap = n;
                }
                true
            },
            None => false,
        }
    }
}

fn to_lower(c: char) -> (r: char)
    ensures
        r == lower(c),
{
    if 'A' <= c && c <= 'Z' {
        ((c as u8) + 32) as char
    } else {
        c
    }
}

impl Table {
    /// Feeds one typed character, writing any resolved kana into `out`.
    ///
    /// On overflow some output may already have been written. The state is kept,
    /// so that a retry continues from where it stopped.
    pub fn feed<S: TextSink>(&self, state: &mut Input, key: char, out: &mut S) -> (r: Result<
        (),
        Overflow,
    >)
        requires
            self.wf(),
            old(state).wf(),
        ensures
            final(state).wf(),
            (*final(out)).limit() == (*old(out)).limit(),
            ({
                let p = fed(
                    self@,
                    old(state).text(),
                    old(state).overlap(),
                    key,
                    (*old(out)).limit(),
                    (*old(out)).text(),
                );
                &&& final(state).text() == p.candidate
                &&& final(state).overlap() == p.overlap
                &&& (*final(out)).text() == p.text
                &&& r is Ok <==> p.complete
            }),
    {
        let key: char = to_lower(key);
        if key as u32 >= 0x80 {
            if self.flush(state, out).is_err() {
                return Err(Overflow);
            }
            return out.push(key);
        }
        let mut candidate = state.pending.clone();
        let mut overlap: usize = state.carry_overlap;
        proof {
            is_ascii_chars_encode_utf8(candidate@);
            strings::lemma_len_push(candidate@, key);
        }
        if candidate.push(key).is_err() {
            if self.flush(state, out).is_err() {
                return Err(Overflow);
            }
            candidate = FixedStr::new();
            proof {
                assert(candidate@.push(key) =~= seq![key]);
                strings::lemma_len_push(candidate@, key);
            }
            match candidate.push(key) {
                Ok(()) => {},
                Err(e) => {
                    return Err(e);
                },
            }
            overlap = 0;
        }
        let result = self.drive(&mut candidate, &mut overlap, out, true);
        state.pending = candidate;
        state.carry_overlap = overlap;
        result
    }

    /// Resolves pending romaji as if no further input were coming. Romaji that
    /// maps to nothing passes through unchanged.
    pub fn flush<S: TextSink>(&self, state: &mut Input, out: &mut S) -> (r: Result<(), Overflow>)
        requires
            self.wf(),
            old(state).wf(),
        ensures
            final(state).wf(),
            (*final(out)).limit() == (*old(out)).limit(),
            ({
                let p = driven(
                    self@,
                    old(state).text(),
                    old(state).overlap(),
                    (*old(out)).limit(),
                    (*old(out)).text(),
                    false,
                );
                &&& final(state).text() == p.candidate
                &&& final(state).overlap() == p.overlap
                &&& (*final(out)).text() == p.text
                &&& r is Ok <==> p.complete
            }),
    {
        let mut candidate = state.pending.clone();
        let mut overlap: usize = state.carry_overlap;
        let result = self.drive(&mut candidate, &mut overlap, out, false);
        state.pending = candidate;
        state.carry_overlap = overlap;
        result
    }

    /// One step of a candidate: what it leaves, how many characters it consumes,
    /// how many of what is left are a carry, and the entry it resolves.
    pub(super) fn resolve(&self, candidate: &FixedStr<MAX_SEQUENCE>) -> (r: (
        FixedStr<MAX_SEQUENCE>,
        usize,
        usize,
        Option<usize>,
    ))
        requires
            self.wf(),
            candidate@.len() > 0,
            candidate@.len() <= MAX_SEQUENCE,
            is_ascii_chars(candidate@),
        ensures
            r.0@ == step_rest(self@, candidate@),
            r.1 == step_len(self@, candidate@),
            r.2 == step_carry(self@, candidate@).len(),
            match r.3 {
                Some(index) => step_matches(self@, candidate@) && index < self@.len()
                    && self@[index as int] == step_entry(self@, candidate@),
                None => !step_matches(self@, candidate@),
            },
    {
        proof {
            lemma_step_shortens(self@, candidate@);
            is_ascii_chars_encode_utf8(candidate@);
        }
        let mut next: FixedStr<MAX_SEQUENCE> = FixedStr::new();
        let total: usize = candidate.as_str().as_bytes().len();
        match self.step_for(candidate.as_str()) {
            Some((index, consumed)) => {
                let entry = &self.entries()[index];
                let carry = entry.carry.as_str();
                let rest = candidate.as_str().substring_ascii(consumed, total);
                proof {
                    assert(self@[index as int] == entry.view());
                    assert(rest@ =~= candidate@.skip(consumed as int));
                    assert(Seq::<char>::empty() + carry@ =~= carry@);
                    is_ascii_chars_encode_utf8(carry@);
                    is_ascii_chars_encode_utf8(carry@ + rest@);
                }
                let _ = next.push_str(carry);
                let _ = next.push_str(rest);
                (next, consumed, carry.as_bytes().len(), Some(index))
            },
            None => {
                let rest = candidate.as_str().substring_ascii(1, total);
                proof {
                    assert(rest@ =~= candidate@.skip(1));
                    assert(Seq::<char>::empty() + rest@ =~= rest@);
                    is_ascii_chars_encode_utf8(rest@);
                }
                let _ = next.push_str(rest);
                (next, 1, 0, None)
            },
        }
    }

    /// The resolution loop.
    fn drive<S: TextSink>(
        &self,
        candidate: &mut FixedStr<MAX_SEQUENCE>,
        overlap: &mut usize,
        out: &mut S,
        may_wait: bool,
    ) -> (r: Result<(), Overflow>)
        requires
            self.wf(),
            is_ascii_chars(old(candidate)@),
            old(candidate)@.len() <= MAX_SEQUENCE,
            *old(overlap) <= old(candidate)@.len(),
        ensures
            is_ascii_chars(final(candidate)@),
            final(candidate)@.len() <= MAX_SEQUENCE,
            *final(overlap) <= final(candidate)@.len(),
            (*final(out)).limit() == (*old(out)).limit(),
            ({
                let p = driven(
                    self@,
                    old(candidate)@,
                    *old(overlap) as int,
                    (*old(out)).limit(),
                    (*old(out)).text(),
                    may_wait,
                );
                &&& final(candidate)@ == p.candidate
                &&& *final(overlap) == p.overlap
                &&& (*final(out)).text() == p.text
                &&& r is Ok <==> p.complete
            }),
    {
        let ghost t = self@;
        let ghost limit = (*out).limit();
        let ghost whole = driven(
            t,
            candidate@,
            *overlap as int,
            limit,
            (*out).text(),
            may_wait,
        );
        loop
            invariant
                self.wf(),
                t == self@,
                is_ascii_chars(candidate@),
                candidate@.len() <= MAX_SEQUENCE,
                *overlap <= candidate@.len(),
                (*out).limit() == limit,
                limit == (*old(out)).limit(),
                whole == driven(
                    t,
                    old(candidate)@,
                    *old(overlap) as int,
                    limit,
                    (*old(out)).text(),
                    may_wait,
                ),
                whole == driven(
                    t,
                    candidate@,
                    *overlap as int,
                    limit,
                    (*out).text(),
                    may_wait,
                ),
            decreases candidate@.len(),
        {
            if candidate.is_empty() {
                *overlap = 0;
                return Ok(());
            }
            if may_wait && self.extends(candidate.as_str()) {
                return Ok(());
            }
            proof {
                lemma_step_shortens(t, candidate@);
                is_ascii_chars_encode_utf8(candidate@);
            }
            let (next, consumed, carried, index) = self.resolve(&*candidate);
            let emitted = match index {
                Some(index) => out.push_str(self.entries()[index].output.as_str()),
                None => {
                    let first: char = candidate.as_str().get_char(0);
                    assert(candidate@.take(1) =~= seq![first]);
                    assert((*out).text() + seq![first] =~= (*out).text().push(first));
                    out.push(first)
                },
            };
            if emitted.is_err() {
                return Err(Overflow);
            }
            *candidate = next;
            *overlap = carried + (if *overlap > consumed {
                *overlap - consumed
            } else {
                0
            });
        }
    }
}

} // verus!
