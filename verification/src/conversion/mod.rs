//! Candidates that no dictionary entry gives.
//!
//! A search over the dictionary leaves a list of candidates, each with a cost. The
//! passes here add what the dictionary does not hold - dates, ways to write a
//! number, marks of punctuation, single kanji - and put the list in order.

pub mod characters;
pub mod dates;
pub mod laws;
pub mod numerals;
pub mod offer_laws;
pub mod punctuation;
pub mod single_kanji;
pub mod sorting;

use crate::dictionary::EntryFlags;
use crate::strings;
use crate::values::{FixedStr, MAX_PREEDIT_BYTES};
use vstd::prelude::*;

verus! {

/// Why a candidate could not be made.
#[derive(Debug, Clone, Copy, PartialEq, Eq, Structural)]
pub enum ConversionError {
    /// The reading has more bytes than a segment can count.
    ReadingTooLong,
    /// A text or a note has more bytes than a candidate can hold.
    OutputTooLong,
}

/// A part of a candidate: the bytes of the reading that it covers, and the bytes of
/// the text that stand for them.
#[derive(Debug, Clone, Copy, PartialEq, Eq, Structural)]
pub struct ConversionSegment {
    pub reading_start: u16,
    pub reading_end: u16,
    pub text_start: u16,
    pub text_end: u16,
    pub left_id: u16,
    pub right_id: u16,
    pub flags: EntryFlags,
    pub word_count: u16,
    pub it_word_count: u16,
}

/// What a candidate was made of.
#[derive(Debug, Clone, Copy, PartialEq, Eq, Structural)]
pub struct PathEvidence {
    /// The number of its parts that no dictionary entry gave.
    pub generated_edges: u32,
    /// The bytes of the reading that entries of the dictionary cover.
    pub system_bytes: u32,
}

/// One candidate.
#[derive(Debug, PartialEq, Eq)]
pub struct ConversionCandidate {
    pub text: FixedStr<MAX_PREEDIT_BYTES>,
    pub annotation: FixedStr<MAX_PREEDIT_BYTES>,
    pub segments: Vec<ConversionSegment>,
    /// The dictionary entry that is the whole candidate, where one is.
    pub system_entry_index: Option<u32>,
    /// Whether the text is shown as it is, whatever the settings say of its marks.
    pub synthetic_exact: bool,
    pub path_evidence: PathEvidence,
    /// Whether the candidate ends in a day that was made up.
    pub generated_day_suffix: bool,
    pub cost: i64,
}

/// What a candidate says.
#[verifier::ext_equal]
pub struct CandidateView {
    pub text: Seq<char>,
    pub annotation: Seq<char>,
    pub segments: Seq<ConversionSegment>,
    pub system_entry_index: Option<u32>,
    pub synthetic_exact: bool,
    pub path_evidence: PathEvidence,
    pub generated_day_suffix: bool,
    pub cost: i64,
}

impl View for ConversionCandidate {
    type V = CandidateView;

    open spec fn view(&self) -> CandidateView {
        CandidateView {
            text: self.text@,
            annotation: self.annotation@,
            segments: self.segments@,
            system_entry_index: self.system_entry_index,
            synthetic_exact: self.synthetic_exact,
            path_evidence: self.path_evidence,
            generated_day_suffix: self.generated_day_suffix,
            cost: self.cost,
        }
    }
}

/// The candidates of one reading.
#[derive(Debug, PartialEq, Eq)]
pub struct Converter {
    pub candidates: Vec<ConversionCandidate>,
}

/// What a list of candidates says.
pub open spec fn views(candidates: Seq<ConversionCandidate>) -> Seq<CandidateView> {
    Seq::new(candidates.len(), |i: int| candidates[i]@)
}

impl View for Converter {
    type V = Seq<CandidateView>;

    open spec fn view(&self) -> Seq<CandidateView> {
        views(self.candidates@)
    }
}

/// The nearest cost to a sum.
pub open spec fn cost_sum(a: int, b: int) -> i64 {
    if a + b > i64::MAX {
        i64::MAX
    } else if a + b < i64::MIN {
        i64::MIN
    } else {
        (a + b) as i64
    }
}

/// The nearest cost to a sum.
pub fn add_cost(a: i64, b: i64) -> (r: i64)
    ensures
        r == cost_sum(a as int, b as int),
{
    if b > 0 && a > i64::MAX - b {
        i64::MAX
    } else if b < 0 && a < i64::MIN - b {
        i64::MIN
    } else {
        a + b
    }
}

/// The nearest cost to a cost and a number of steps.
pub(crate) fn raise_cost(cost: i64, steps: usize) -> (r: i64)
    ensures
        r == cost_sum(cost as int, steps as int),
{
    let sum: i128 = cost as i128 + steps as i128;
    if sum > i64::MAX as i128 {
        i64::MAX
    } else {
        sum as i64
    }
}

/// Whether a candidate has a text.
pub open spec fn has_text(list: Seq<CandidateView>, text: Seq<char>) -> bool {
    exists|i: int| 0 <= i < list.len() && (#[trigger] list[i]).text == text
}

/// Whether a candidate has a text.
pub(crate) fn contains_text(candidates: &[ConversionCandidate], text: &str) -> (r: bool)
    ensures
        r == has_text(views(candidates@), text@),
{
    let ghost list = views(candidates@);
    let mut i: usize = 0;
    while i < candidates.len()
        invariant
            i <= candidates@.len(),
            list == views(candidates@),
            forall|k: int| 0 <= k < i ==> (#[trigger] list[k]).text != text@,
        decreases candidates@.len() - i,
    {
        assert(list[i as int] == candidates@[i as int]@);
        if strings::same_text(candidates[i].text.as_str(), text) {
            return true;
        }
        i = i + 1;
    }
    false
}

/// A candidate of one segment that was made up.
pub open spec fn generated(
    text: Seq<char>,
    annotation: Seq<char>,
    reading: Seq<char>,
    left_id: u16,
    right_id: u16,
    exact: bool,
    cost: i64,
) -> CandidateView {
    CandidateView {
        text,
        annotation,
        segments: seq![
            ConversionSegment {
                reading_start: 0,
                reading_end: strings::utf8_len(reading) as u16,
                text_start: 0,
                text_end: strings::utf8_len(text) as u16,
                left_id,
                right_id,
                flags: EntryFlags(0),
                word_count: 1,
                it_word_count: 0,
            },
        ],
        system_entry_index: None,
        synthetic_exact: exact,
        path_evidence: PathEvidence { generated_edges: 1, system_bytes: 0 },
        generated_day_suffix: false,
        cost,
    }
}

/// Makes up a candidate of one segment.
pub(crate) fn generate(
    text: FixedStr<MAX_PREEDIT_BYTES>,
    annotation: FixedStr<MAX_PREEDIT_BYTES>,
    reading: &str,
    left_id: u16,
    right_id: u16,
    exact: bool,
    cost: i64,
) -> (r: ConversionCandidate)
    requires
        text.wf(),
        strings::utf8_len(reading@) <= u16::MAX,
    ensures
        r@ == generated(text@, annotation@, reading@, left_id, right_id, exact, cost),
{
    let bytes: &[u8] = reading.as_bytes();
    let segment = ConversionSegment {
        reading_start: 0,
        reading_end: bytes.len() as u16,
        text_start: 0,
        text_end: text.len() as u16,
        left_id,
        right_id,
        flags: EntryFlags::none(),
        word_count: 1,
        it_word_count: 0,
    };
    let mut segments: Vec<ConversionSegment> = Vec::new();
    segments.push(segment);
    assert(segments@ =~= seq![segment]);
    ConversionCandidate {
        text,
        annotation,
        segments,
        system_entry_index: None,
        synthetic_exact: exact,
        path_evidence: PathEvidence { generated_edges: 1, system_bytes: 0 },
        generated_day_suffix: false,
        cost,
    }
}

/// A text that fits a candidate.
pub(crate) fn bounded(text: &str) -> (r: Option<FixedStr<MAX_PREEDIT_BYTES>>)
    ensures
        match r {
            Some(s) => s@ == text@ && s.wf() && strings::utf8_len(text@) <= MAX_PREEDIT_BYTES,
            None => strings::utf8_len(text@) > MAX_PREEDIT_BYTES,
        },
{
    let mut s: FixedStr<MAX_PREEDIT_BYTES> = FixedStr::new();
    assert(Seq::<char>::empty() + text@ =~= text@);
    match s.push_str(text) {
        Ok(()) => Some(s),
        Err(_) => None,
    }
}

/// The lower of a cost and another that may not be there.
pub open spec fn lower(a: Option<i64>, b: i64) -> Option<i64> {
    match a {
        Some(cost) => if cost <= b {
            a
        } else {
            Some(b)
        },
        None => Some(b),
    }
}

/// The lower of a cost and another that may not be there.
pub(crate) fn lower_cost(a: Option<i64>, b: i64) -> (r: Option<i64>)
    ensures
        r == lower(a, b),
{
    match a {
        Some(cost) => if cost <= b {
            a
        } else {
            Some(b)
        },
        None => Some(b),
    }
}

impl Converter {
    /// A list of candidates.
    pub fn new(candidates: Vec<ConversionCandidate>) -> (r: Self)
        ensures
            r.candidates@ == candidates@,
    {
        Converter { candidates }
    }

    /// The candidates, in order.
    pub fn candidates(&self) -> (r: &[ConversionCandidate])
        ensures
            r@ == self.candidates@,
    {
        self.candidates.as_slice()
    }
}

} // verus!
