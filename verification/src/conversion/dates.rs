//! Dates, and numbers of days.

use super::{
    bounded, contains_text, generate, lower_cost, raise_cost, CandidateView, ConversionError,
    ConversionSegment, Converter, PathEvidence,
};
use crate::conversion;
use crate::numerals;
use crate::numerals::is_numeric_day_surface;
use crate::strings;
use crate::values::MAX_PREEDIT_BYTES;
use vstd::prelude::*;

verus! {

/// A way to write a date, and what it is called.
#[derive(Debug, PartialEq, Eq)]
pub struct DateSurface {
    pub text: String,
    pub annotation: String,
}

/// Whether a reading ends in `じつ`, which ends words and counts no days.
pub open spec fn ends_in_jitsu(reading: Seq<char>) -> bool {
    reading.len() >= 2 && reading[reading.len() - 2] == 'じ' && reading.last() == 'つ'
}

/// A list without the numbers of days.
pub open spec fn without_days(list: Seq<CandidateView>) -> Seq<CandidateView>
    decreases list.len(),
{
    if list.len() == 0 {
        Seq::empty()
    } else if numerals::numeric_day_surface(list[0].text) {
        without_days(list.skip(1))
    } else {
        seq![list[0]] + without_days(list.skip(1))
    }
}

/// Whether entries of the dictionary cover all the bytes of a reading, and nothing
/// was made up.
pub open spec fn covered(c: CandidateView, reading_len: nat) -> bool {
    c.path_evidence.generated_edges == 0 && c.path_evidence.system_bytes == reading_len
}

/// The lowest cost of the first `n` candidates that the dictionary covers.
pub open spec fn lowest_covered(list: Seq<CandidateView>, reading_len: nat, n: int) -> Option<i64>
    decreases n,
{
    if n <= 0 {
        None
    } else {
        let before = lowest_covered(list, reading_len, n - 1);
        if covered(list[n - 1], reading_len) {
            conversion::lower(before, list[n - 1].cost)
        } else {
            before
        }
    }
}

/// A candidate with a cost of at least `floor`, where it ends in a day that was made
/// up.
pub open spec fn demoted(c: CandidateView, floor: i64) -> CandidateView {
    if c.generated_day_suffix && c.cost < floor {
        CandidateView { cost: floor, ..c }
    } else {
        c
    }
}

/// A list with the days that were made up behind what the dictionary covers.
pub open spec fn with_days_demoted(list: Seq<CandidateView>, reading_len: nat) -> Seq<
    CandidateView,
> {
    match lowest_covered(list, reading_len, list.len() as int) {
        None => list,
        Some(cost) => Seq::new(
            list.len(),
            |i: int| demoted(list[i], conversion::cost_sum(cost as int, 1)),
        ),
    }
}

/// The connection classes at the two ends of a candidate.
pub open spec fn ends_of(c: CandidateView) -> (u16, u16) {
    if c.segments.len() == 0 {
        (0, 0)
    } else {
        (c.segments[0].left_id, c.segments.last().right_id)
    }
}

/// A list with one more way to write a date. It is left out where the list is full,
/// where the text or its note does not fit, and where the text is there already.
pub open spec fn with_date(
    list: Seq<CandidateView>,
    base: CandidateView,
    reading: Seq<char>,
    text: Seq<char>,
    annotation: Seq<char>,
    index: int,
    most: nat,
) -> Seq<CandidateView> {
    if list.len() >= most || strings::utf8_len(text) > MAX_PREEDIT_BYTES || conversion::has_text(
        list,
        text,
    ) || strings::utf8_len(annotation) > MAX_PREEDIT_BYTES {
        list
    } else {
        let (left, right) = ends_of(base);
        list.push(
            conversion::generated(
                text,
                annotation,
                reading,
                left,
                right,
                false,
                conversion::cost_sum(base.cost as int, 10 + index),
            ),
        )
    }
}

/// A list with the first `n` ways to write a date, each behind the first candidate.
pub open spec fn with_dates(
    list: Seq<CandidateView>,
    reading: Seq<char>,
    surfaces: Seq<DateSurface>,
    n: int,
    most: nat,
) -> Seq<CandidateView>
    decreases n,
{
    if n <= 0 {
        list
    } else {
        with_date(
            with_dates(list, reading, surfaces, n - 1, most),
            list[0],
            reading,
            surfaces[n - 1].text@,
            surfaces[n - 1].annotation@,
            n - 1,
            most,
        )
    }
}

impl Converter {
    /// Takes out the numbers of days where the reading ends in `じつ`: it ends words
    /// there, such as 先日 and 本日.
    pub fn drop_jitsu_day_counts(&mut self, reading: &str)
        ensures
            final(self)@ == (if ends_in_jitsu(reading@) {
                without_days(old(self)@)
            } else {
                old(self)@
            }),
    {
        let chars: Vec<char> = strings::chars_of(reading);
        let n: usize = chars.len();
        if n < 2 || chars[n - 2] != 'じ' || chars[n - 1] != 'つ' {
            return;
        }
        let ghost start = self@;
        let mut i: usize = 0;
        assert(start.skip(0) =~= start);
        assert(start.take(0) + without_days(start.skip(0)) =~= without_days(start));
        while i < self.candidates.len()
            invariant
                i <= self.candidates@.len(),
                self@.take(i as int) + without_days(self@.skip(i as int)) == without_days(start),
            decreases self.candidates@.len() - i,
        {
            let ghost now = self@;
            let ghost rest = now.skip(i as int);
            assert(rest[0] == self.candidates@[i as int]@);
            assert(rest.skip(1) =~= now.skip(i + 1));
            if is_numeric_day_surface(self.candidates[i].text.as_str()) {
                self.candidates.remove(i);
                assert(self@ =~= now.remove(i as int));
                assert(self@.skip(i as int) =~= now.skip(i + 1));
                assert(self@.take(i as int) =~= now.take(i as int));
            } else {
                i = i + 1;
                assert(now.take(i as int) =~= now.take(i - 1).push(rest[0]));
                assert(now.take(i as int) + without_days(now.skip(i as int)) =~= now.take(i - 1) + (
                seq![rest[0]] + without_days(rest.skip(1))));
            }
        }
        assert(self@.take(i as int) + without_days(self@.skip(i as int)) =~= self@);
    }

    /// Puts candidates that end in a day that was made up behind the best that the
    /// dictionary covers.
    pub fn demote_generated_day_suffixes(&mut self, reading_len: usize)
        ensures
            final(self)@ == with_days_demoted(old(self)@, reading_len as nat),
    {
        let ghost start = self@;
        let mut best: Option<i64> = None;
        let mut i: usize = 0;
        while i < self.candidates.len()
            invariant
                i <= self.candidates@.len(),
                start == self@,
                self@ == old(self)@,
                best == lowest_covered(start, reading_len as nat, i as int),
            decreases self.candidates@.len() - i,
        {
            assert(start[i as int] == self.candidates@[i as int]@);
            let evidence: PathEvidence = self.candidates[i].path_evidence;
            if evidence.generated_edges == 0 && evidence.system_bytes as usize == reading_len {
                best = lower_cost(best, self.candidates[i].cost);
            }
            i = i + 1;
        }
        let Some(cost) = best else {
            return;
        };
        let floor: i64 = raise_cost(cost, 1);
        let ghost goal = with_days_demoted(start, reading_len as nat);
        let mut k: usize = 0;
        assert(goal.take(0) + start.skip(0) =~= start);
        while k < self.candidates.len()
            invariant
                k <= self.candidates@.len(),
                self.candidates@.len() == start.len(),
                goal.len() == start.len(),
                forall|j: int| 0 <= j < goal.len() ==> #[trigger] goal[j] == demoted(start[j], floor),
                forall|j: int| 0 <= j < k ==> (#[trigger] self.candidates@[j])@ == goal[j],
                forall|j: int|
                    k <= j < start.len() ==> (#[trigger] self.candidates@[j])@ == start[j],
            decreases self.candidates@.len() - k,
        {
            assert(goal[k as int] == demoted(start[k as int], floor));
            if self.candidates[k].generated_day_suffix && self.candidates[k].cost < floor {
                self.candidates[k].cost = floor;
            }
            k = k + 1;
        }
        assert(self@ =~= goal);
    }

    /// Adds the ways to write the date that a reading stands for, where it stands
    /// for one, behind the first candidate. The list keeps to `most` candidates.
    pub fn add_date_candidates(
        &mut self,
        reading: &str,
        surfaces: Option<&[DateSurface]>,
        most: usize,
    ) -> (r: Result<(), ConversionError>)
        ensures
            match surfaces {
                None => r is Ok && final(self)@ == old(self)@,
                Some(ways) => if old(self)@.len() == 0 {
                    r is Ok && final(self)@ == old(self)@
                } else if strings::utf8_len(reading@) > u16::MAX {
                    &&& r == Err::<(), ConversionError>(ConversionError::ReadingTooLong)
                    &&& final(self)@ == old(self)@
                } else {
                    r is Ok && final(self)@ == with_dates(
                        old(self)@,
                        reading@,
                        ways@,
                        ways@.len() as int,
                        most as nat,
                    )
                },
            },
    {
        let Some(ways) = surfaces else {
            return Ok(());
        };
        if self.candidates.len() == 0 {
            return Ok(());
        }
        let bytes: &[u8] = reading.as_bytes();
        if bytes.len() > 0xffff {
            return Err(ConversionError::ReadingTooLong);
        }
        let ghost start = self@;
        let ghost base = start[0];
        assert(base == self.candidates@[0]@);
        let cost: i64 = self.candidates[0].cost;
        let count: usize = self.candidates[0].segments.len();
        let (left, right): (u16, u16) = if count == 0 {
            (0, 0)
        } else {
            let first: ConversionSegment = self.candidates[0].segments[0];
            let last: ConversionSegment = self.candidates[0].segments[count - 1];
            (first.left_id, last.right_id)
        };
        let mut i: usize = 0;
        assert(ways.len() == ways@.len());
        while i < ways.len()
            invariant
                i <= ways@.len(),
                start == old(self)@,
                base == start[0],
                cost == base.cost,
                (left, right) == ends_of(base),
                strings::utf8_len(reading@) <= u16::MAX,
                self@ == with_dates(start, reading@, ways@, i as int, most as nat),
            decreases ways@.len() - i,
        {
            let ghost before = self@;
            let way: &DateSurface = &ways[i];
            let full: bool = self.candidates.len() >= most;
            if !full {
                if let Some(text) = bounded(way.text.as_str()) {
                    if !contains_text(&self.candidates, text.as_str()) {
                        if let Some(annotation) = bounded(way.annotation.as_str()) {
                            let raised: i64 = date_cost(cost, i);
                            let candidate = generate(
                                text,
                                annotation,
                                reading,
                                left,
                                right,
                                false,
                                raised,
                            );
                            self.candidates.push(candidate);
                            assert(self@ =~= before.push(candidate@));
                        }
                    }
                }
            }
            i = i + 1;
        }
        Ok(())
    }
}

/// The cost of a way to write a date.
fn date_cost(cost: i64, index: usize) -> (r: i64)
    ensures
        r == conversion::cost_sum(cost as int, 10 + index),
{
    let sum: i128 = cost as i128 + 10 + index as i128;
    if sum > i64::MAX as i128 {
        i64::MAX
    } else {
        sum as i64
    }
}

} // verus!
