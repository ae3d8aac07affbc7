//! One-key completions of raw input that holds one character without a reading.

use super::replay;
use super::replay::ReplayError;
use super::table::{Mapping, Table};
use super::{MAX_LOCAL_COMPLETIONS, MAX_REPLAY_OUTPUT_BYTES, MAX_REPLAY_RAW_BYTES};
use crate::strings;
use crate::values::FixedStr;
use vstd::prelude::*;
#[allow(unused_imports)]
use vstd::std_specs::iter::*;
#[allow(unused_imports)]
use vstd::utf8::*;

verus! {

/// One key, inserted behind the character without a reading.
#[derive(Debug, PartialEq, Eq)]
pub struct LocalCompletion {
    /// The raw byte that `key` is inserted before.
    pub insertion_at: u16,
    /// The inserted key.
    pub key: u8,
    /// The source of the character without a reading.
    pub anomaly_start: u16,
    pub anomaly_end: u16,
    /// The reading of the raw input with the key.
    pub corrected_reading: FixedStr<MAX_REPLAY_OUTPUT_BYTES>,
}

/// The model of one completion.
pub struct Completion {
    pub insertion_at: int,
    pub key: u8,
    pub anomaly_start: int,
    pub anomaly_end: int,
    pub reading: Seq<char>,
}

impl LocalCompletion {
    pub open spec fn view(&self) -> Completion {
        Completion {
            insertion_at: self.insertion_at as int,
            key: self.key,
            anomaly_start: self.anomaly_start as int,
            anomaly_end: self.anomaly_end as int,
            reading: self.corrected_reading@,
        }
    }
}

impl Clone for LocalCompletion {
    fn clone(&self) -> (r: Self)
        ensures
            r.view() == self.view(),
    {
        LocalCompletion {
            insertion_at: self.insertion_at,
            key: self.key,
            anomaly_start: self.anomaly_start,
            anomaly_end: self.anomaly_end,
            corrected_reading: self.corrected_reading.clone(),
        }
    }
}

/// The completions of one anomaly, in the order of their keys.
#[derive(Debug, PartialEq, Eq)]
pub struct LocalCompletionList {
    completions: Vec<LocalCompletion>,
}

/// The models of a list of completions.
pub open spec fn completion_views(list: Seq<LocalCompletion>) -> Seq<Completion> {
    list.map_values(|c: LocalCompletion| c.view())
}

impl Clone for LocalCompletionList {
    fn clone(&self) -> (r: Self)
        ensures
            r.view() == self.view(),
    {
        let mut completions: Vec<LocalCompletion> = Vec::new();
        let mut i: usize = 0;
        while i < self.completions.len()
            invariant
                i <= self.completions@.len(),
                completions@.len() == i,
                forall|k: int| 0 <= k < i ==> (#[trigger] completions@[k]).view() == self.completions@[k].view(),
            decreases self.completions@.len() - i,
        {
            completions.push(self.completions[i].clone());
            i = i + 1;
        }
        let r = LocalCompletionList { completions };
        assert(r.view() =~= self.view());
        r
    }
}

impl LocalCompletionList {
    pub closed spec fn view(&self) -> Seq<Completion> {
        completion_views(self.completions@)
    }

    /// The number of completions.
    pub fn len(&self) -> (n: usize)
        ensures
            n == self.view().len(),
    {
        self.completions.len()
    }

    /// Whether no key completes the input.
    pub fn is_empty(&self) -> (r: bool)
        ensures
            r == (self.view().len() == 0),
    {
        self.completions.len() == 0
    }

    /// The completions.
    pub fn as_slice(&self) -> (list: &[LocalCompletion])
        ensures
            completion_views(list@) == self.view(),
    {
        self.completions.as_slice()
    }

    /// The completions, one after the other.
    pub fn iter(&self) -> (r: core::slice::Iter<'_, LocalCompletion>)
        ensures
            completion_views(IteratorSpec::remaining(&r).unref()) == self.view(),
    {
        self.completions.as_slice().iter()
    }

    /// The completion at `index`.
    pub fn get(&self, index: usize) -> (r: Option<&LocalCompletion>)
        ensures
            match r {
                Some(c) => index < self.view().len() && c.view() == self.view()[index as int],
                None => index >= self.view().len(),
            },
    {
        if index < self.completions.len() {
            Some(&self.completions[index])
        } else {
            None
        }
    }
}

/// Why completions could not be planned.
#[derive(Debug, Clone, Copy, PartialEq, Eq, Structural)]
pub enum LocalCompletionError {
    /// The raw input could not be replayed.
    Replay(ReplayError),
    /// The observed text is not what the raw input produces.
    ObservedMismatch,
}

impl LocalCompletionError {
    /// The text that describes the fault.
    pub open spec fn text_of(self) -> Seq<char> {
        match self {
            LocalCompletionError::Replay(error) => error.text_of(),
            LocalCompletionError::ObservedMismatch => "raw replay does not match observed preedit"@,
        }
    }

    /// The text that describes the fault.
    pub fn message(&self) -> (s: String)
        ensures
            s@ == self.text_of(),
    {
        match self {
            LocalCompletionError::Replay(error) => error.message(),
            LocalCompletionError::ObservedMismatch => "raw replay does not match observed preedit".to_owned(),
        }
    }
}

// ---------------------------------------------------------------------------
// The model.

/// The raw input with a key inserted.
pub open spec fn with_key(raw: Seq<char>, at: int, key: int) -> Seq<char> {
    raw.take(at).push(key as char) + raw.skip(at)
}

/// The replay of the raw input with a key inserted.
pub open spec fn completed(t: Seq<Mapping>, raw: Seq<char>, at: int, key: int) -> replay::Replay {
    replay::replayed(t, with_key(raw, at, key), (raw.len() + 1) as int)
}

/// Whether a key makes everything a reading. Capital letters are left out: they
/// mean the same as small ones.
pub open spec fn completes(t: Seq<Mapping>, raw: Seq<char>, at: int, key: int) -> bool {
    let s = completed(t, raw, at, key);
    &&& !(0x41 <= key <= 0x5a)
    &&& !s.refused
    &&& replay::passthroughs(s.events) == 0
    &&& s.candidate.len() == 0
}

/// The first `room` completions by keys from `key` on, behind the anomaly `a`.
pub open spec fn planned(
    t: Seq<Mapping>,
    raw: Seq<char>,
    a: replay::Emission,
    key: int,
    room: int,
) -> Seq<Completion>
    decreases 0x7f - key,
{
    if key > 0x7e || room <= 0 {
        Seq::empty()
    } else if completes(t, raw, a.raw_end, key) {
        seq![
            Completion {
                insertion_at: a.raw_end,
                key: key as u8,
                anomaly_start: a.raw_start,
                anomaly_end: a.raw_end,
                reading: completed(t, raw, a.raw_end, key).output,
            },
        ] + planned(t, raw, a, key + 1, room - 1)
    } else {
        planned(t, raw, a, key + 1, room)
    }
}

/// The one emission that passes a character through.
pub open spec fn anomaly(s: replay::Replay) -> replay::Emission {
    s.events.filter(
        |e: replay::Emission| e.kind == replay::ReplayEventKind::RawPassthrough,
    )[0]
}

/// The completions of a replayed input: none, unless it holds exactly one
/// character without a reading and nothing is pending.
pub open spec fn plans(t: Seq<Mapping>, raw: Seq<char>, s: replay::Replay) -> Seq<Completion> {
    if replay::passthroughs(s.events) != 1 || s.candidate.len() > 0 || raw.len()
        >= MAX_REPLAY_RAW_BYTES {
        Seq::empty()
    } else {
        planned(t, raw, anomaly(s), 0x20, MAX_LOCAL_COMPLETIONS as int)
    }
}

/// As many emissions pass a character through as are left by filtering, and each
/// of these is one of the emissions.
proof fn lemma_filter(events: Seq<replay::Emission>)
    ensures
        ({
            let kept = events.filter(
                |e: replay::Emission| e.kind == replay::ReplayEventKind::RawPassthrough,
            );
            &&& kept.len() == replay::passthroughs(events)
            &&& forall|i: int| 0 <= i < kept.len() ==> events.contains(#[trigger] kept[i])
        }),
    decreases events.len(),
{
    reveal(Seq::filter);
    let raw = |e: replay::Emission| e.kind == replay::ReplayEventKind::RawPassthrough;
    if events.len() > 0 {
        lemma_filter(events.drop_last());
        let kept = events.filter(raw);
        let before = events.drop_last().filter(raw);
        assert forall|i: int| 0 <= i < kept.len() implies events.contains(#[trigger] kept[i]) by {
            if i < before.len() {
                assert(kept[i] == before[i]);
                let k = events.drop_last().index_of(before[i]);
                assert(events[k] == kept[i]);
            } else {
                assert(events[events.len() - 1] == kept[i]);
            }
        }
    }
}

// ---------------------------------------------------------------------------
// Executable code.

impl Table {
    /// The one-key completions of raw input. `observed` must be the text that
    /// the input produces.
    ///
    /// Every printable ASCII key is tried behind the one character without a
    /// reading, and kept where it makes everything a reading.
    pub fn plan_local_completions(&self, raw: &str, observed: &str) -> (r: Result<
        LocalCompletionList,
        LocalCompletionError,
    >)
        requires
            self.wf(),
        ensures
            ({
                let s = replay::replayed(self@, raw@, raw@.len() as int);
                if !is_ascii_chars(raw@) {
                    r matches Err(e) && e == LocalCompletionError::Replay(ReplayError::NonAsciiRaw)
                } else if raw@.len() > MAX_REPLAY_RAW_BYTES {
                    r matches Err(e) && e == LocalCompletionError::Replay(ReplayError::RawTooLong)
                } else if s.refused {
                    r matches Err(e) && e == LocalCompletionError::Replay(
                        ReplayError::OutputOverflow,
                    )
                } else if s.output != observed@ {
                    r matches Err(e) && e == LocalCompletionError::ObservedMismatch
                } else {
                    r matches Ok(list) && list.view() == plans(self@, raw@, s)
                }
            }),
    {
        let trace = match self.replay(raw) {
            Ok(trace) => trace,
            Err(e) => {
                return Err(LocalCompletionError::Replay(e));
            },
        };
        let ghost t = self@;
        let ghost s = replay::replayed(t, raw@, raw@.len() as int);
        proof {
            trace.lemma_is(s);
            replay::lemma_replayed(t, raw@, raw@.len() as int);
            is_ascii_chars_encode_utf8(raw@);
            lemma_filter(s.events);
        }
        if !strings::same_text(trace.output(), observed) {
            return Err(LocalCompletionError::ObservedMismatch);
        }
        let mut completions: Vec<LocalCompletion> = Vec::new();
        assert(completion_views(completions@) =~= Seq::<Completion>::empty());
        let total: usize = raw.as_bytes().len();
        if trace.raw_passthrough_count() != 1 || !trace.pending().is_empty() || total
            >= MAX_REPLAY_RAW_BYTES {
            return Ok(LocalCompletionList { completions });
        }
        let raws = trace.raw_passthrough();
        assert(replay::emissions(raws@).len() == 1);
        let event = raws[0];
        let ghost a = anomaly(s);
        proof {
            assert(replay::emissions(raws@)[0] == event.view());
            assert(s.events.contains(a));
            let k = s.events.index_of(a);
            assert(s.events[k] == a);
        }
        let at: usize = event.raw_end();
        let head = raw.substring_ascii(0, at);
        let tail = raw.substring_ascii(at, total);
        assert(head@ =~= raw@.take(at as int));
        assert(tail@ =~= raw@.skip(at as int));
        assert(head@ + tail@ =~= raw@);
        let ghost whole = planned(t, raw@, a, 0x20, MAX_LOCAL_COMPLETIONS as int);
        assert(completion_views(completions@) + whole =~= whole);
        let mut key: u8 = 0x20;
        while key <= 0x7e && completions.len() < MAX_LOCAL_COMPLETIONS
            invariant
                self.wf(),
                t == self@,
                is_ascii_chars(raw@),
                raw@.len() < MAX_REPLAY_RAW_BYTES,
                at == a.raw_end,
                event.view() == a,
                0 <= a.raw_start <= a.raw_end <= raw@.len(),
                head@ == raw@.take(at as int),
                tail@ == raw@.skip(at as int),
                head@ + tail@ == raw@,
                0x20 <= key <= 0x7f,
                completions@.len() <= MAX_LOCAL_COMPLETIONS,
                whole == planned(t, raw@, a, 0x20, MAX_LOCAL_COMPLETIONS as int),
                whole == completion_views(completions@) + planned(
                    t,
                    raw@,
                    a,
                    key as int,
                    MAX_LOCAL_COMPLETIONS - completions@.len(),
                ),
            decreases 0x7f - key,
        {
            let ghost before = completion_views(completions@);
            if let Some(reading) = self.completed_reading(head, key, tail, Ghost(raw@)) {
                let completion = LocalCompletion {
                    insertion_at: at as u16,
                    key,
                    anomaly_start: event.raw_start() as u16,
                    anomaly_end: at as u16,
                    corrected_reading: reading,
                };
                let ghost view = completion.view();
                completions.push(completion);
                proof {
                    let later = planned(
                        t,
                        raw@,
                        a,
                        key + 1,
                        MAX_LOCAL_COMPLETIONS - completions@.len(),
                    );
                    assert(completion_views(completions@) =~= before.push(view));
                    assert(before + (seq![view] + later) =~= before.push(view) + later);
                }
            }
            key = key + 1;
        }
        assert(completion_views(completions@) + Seq::<Completion>::empty() =~= completion_views(
            completions@,
        ));
        Ok(LocalCompletionList { completions })
    }

    /// The reading of the raw input with a key inserted, where the key completes
    /// it.
    fn completed_reading(
        &self,
        head: &str,
        key: u8,
        tail: &str,
        Ghost(raw): Ghost<Seq<char>>,
    ) -> (r: Option<FixedStr<MAX_REPLAY_OUTPUT_BYTES>>)
        requires
            self.wf(),
            is_ascii_chars(raw),
            raw.len() < MAX_REPLAY_RAW_BYTES,
            head@ + tail@ == raw,
            0x20 <= key <= 0x7e,
        ensures
            match r {
                Some(reading) => completes(self@, raw, head@.len() as int, key as int) && reading@
                    == completed(self@, raw, head@.len() as int, key as int).output,
                None => !completes(self@, raw, head@.len() as int, key as int),
            },
    {
        if 0x41 <= key && key <= 0x5a {
            return None;
        }
        let mut candidate: String = head.to_owned();
        strings::push_char(&mut candidate, key as char);
        candidate.append(tail);
        let ghost at = head@.len() as int;
        let ghost longer = with_key(raw, at, key as int);
        proof {
            assert(raw.take(at) =~= head@);
            assert(raw.skip(at) =~= tail@);
            assert(candidate@ == longer);
            assert forall|i: int| 0 <= i < longer.len() implies '\0' <= #[trigger] longer[i]
                <= '\u{7f}' by {
                if i < at {
                    assert(longer[i] == raw[i]);
                } else if i > at {
                    assert(longer[i] == raw[i - 1]);
                }
            }
            assert(is_ascii_chars(longer));
        }
        match self.replay(candidate.as_str()) {
            Ok(trace) => {
                proof {
                    trace.lemma_is(completed(self@, raw, at, key as int));
                }
                if trace.raw_passthrough_count() != 0 || !trace.pending().is_empty() {
                    None
                } else {
                    Some(trace.output_copy())
                }
            },
            Err(_) => None,
        }
    }
}

} // verus!
