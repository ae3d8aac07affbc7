//! The marks that a mark of punctuation can be written as.

use super::{bounded, generate, lower_cost, raise_cost, CandidateView, ConversionError, Converter};
use crate::conversion;
use crate::strings;
use crate::values::{FixedStr, MAX_PREEDIT_BYTES};
use vstd::prelude::*;

verus! {

/// A mark, and what it is called.
#[derive(Debug, PartialEq, Eq)]
pub struct PunctuationVariant {
    pub glyph: char,
    pub annotation: String,
}

/// Whether a character is one of several marks.
pub open spec fn among(family: Seq<PunctuationVariant>, c: char) -> bool {
    exists|i: int| 0 <= i < family.len() && (#[trigger] family[i]).glyph == c
}

/// Whether a text is one of several marks by itself.
pub open spec fn is_member(family: Seq<PunctuationVariant>, text: Seq<char>) -> bool {
    text.len() == 1 && among(family, text[0])
}

/// A list without the marks.
pub open spec fn without_family(list: Seq<CandidateView>, family: Seq<PunctuationVariant>) -> Seq<
    CandidateView,
>
    decreases list.len(),
{
    if list.len() == 0 {
        Seq::empty()
    } else if is_member(family, list[0].text) {
        without_family(list.skip(1), family)
    } else {
        seq![list[0]] + without_family(list.skip(1), family)
    }
}

/// The lowest cost of the first `n` candidates.
pub open spec fn lowest_cost(list: Seq<CandidateView>, n: int) -> Option<i64>
    decreases n,
{
    if n <= 0 {
        None
    } else {
        conversion::lower(lowest_cost(list, n - 1), list[n - 1].cost)
    }
}

/// The cost of the first of `size` marks, so that all of them cost less than every
/// candidate of a list.
pub open spec fn first_cost(list: Seq<CandidateView>, size: nat) -> i64 {
    let lowest = match lowest_cost(list, list.len() as int) {
        Some(cost) => cost,
        None => 0,
    };
    conversion::cost_sum(lowest as int, -(size as int))
}

/// The first `n` marks as candidates.
pub open spec fn members(
    family: Seq<PunctuationVariant>,
    reading: Seq<char>,
    first: i64,
    n: nat,
) -> Seq<CandidateView> {
    Seq::new(
        n,
        |i: int|
            conversion::generated(
                seq![family[i].glyph],
                family[i].annotation@,
                reading,
                0,
                0,
                true,
                conversion::cost_sum(first as int, i),
            ),
    )
}

/// The first mark from `i` on with a note that does not fit, or the number of marks.
pub open spec fn first_too_long(family: Seq<PunctuationVariant>, i: int) -> int
    decreases family.len() - i,
{
    if i < 0 || i >= family.len() || strings::utf8_len(family[i].annotation@) > MAX_PREEDIT_BYTES {
        i
    } else {
        first_too_long(family, i + 1)
    }
}

/// The first so many candidates of a list.
pub open spec fn at_most(list: Seq<CandidateView>, n: nat) -> Seq<CandidateView> {
    if list.len() <= n {
        list
    } else {
        list.take(n as int)
    }
}

/// Whether a character is one of several marks.
fn is_among(family: &[PunctuationVariant], c: char) -> (r: bool)
    ensures
        r == among(family@, c),
{
    let mut i: usize = 0;
    while i < family.len()
        invariant
            i <= family@.len(),
            forall|k: int| 0 <= k < i ==> (#[trigger] family@[k]).glyph != c,
        decreases family@.len() - i,
    {
        if family[i].glyph == c {
            return true;
        }
        i = i + 1;
    }
    false
}

impl Converter {
    /// Takes out the marks.
    fn drop_family(&mut self, family: &[PunctuationVariant])
        ensures
            final(self)@ == without_family(old(self)@, family@),
    {
        let ghost start = self@;
        let mut i: usize = 0;
        assert(start.skip(0) =~= start);
        assert(start.take(0) + without_family(start.skip(0), family@) =~= without_family(
            start,
            family@,
        ));
        while i < self.candidates.len()
            invariant
                i <= self.candidates@.len(),
                self@.take(i as int) + without_family(self@.skip(i as int), family@)
                    == without_family(start, family@),
            decreases self.candidates@.len() - i,
        {
            let ghost now = self@;
            let ghost rest = now.skip(i as int);
            assert(rest[0] == self.candidates@[i as int]@);
            assert(rest.skip(1) =~= now.skip(i + 1));
            let chars: Vec<char> = strings::chars_of(self.candidates[i].text.as_str());
            if chars.len() == 1 && is_among(family, chars[0]) {
                self.candidates.remove(i);
                assert(self@ =~= now.remove(i as int));
                assert(self@.skip(i as int) =~= now.skip(i + 1));
                assert(self@.take(i as int) =~= now.take(i as int));
            } else {
                i = i + 1;
                assert(now.take(i as int) =~= now.take(i - 1).push(rest[0]));
                assert(now.take(i as int) + without_family(now.skip(i as int), family@)
                    =~= now.take(i - 1) + (seq![rest[0]] + without_family(rest.skip(1), family@)));
            }
        }
        assert(self@.take(i as int) + without_family(self@.skip(i as int), family@) =~= self@);
    }

    /// The cost of the first of `size` marks.
    fn cost_in_front(&self, size: usize) -> (r: i64)
        ensures
            r == first_cost(self@, size as nat),
    {
        let mut lowest: Option<i64> = None;
        let mut i: usize = 0;
        while i < self.candidates.len()
            invariant
                i <= self.candidates@.len(),
                lowest == lowest_cost(self@, i as int),
            decreases self.candidates@.len() - i,
        {
            assert(self@[i as int] == self.candidates@[i as int]@);
            lowest = lower_cost(lowest, self.candidates[i].cost);
            i = i + 1;
        }
        let cost: i64 = match lowest {
            Some(cost) => cost,
            None => 0,
        };
        let difference: i128 = cost as i128 - size as i128;
        if difference < i64::MIN as i128 {
            i64::MIN
        } else {
            difference as i64
        }
    }

    /// Offers all the marks that a mark of punctuation can be written as, where the
    /// reading is one, in the order of `family` and in front of everything else.
    /// They are shown as they are, whatever the settings say, and the ones that were
    /// in the list already are taken out first.
    pub fn append_punctuation_family(
        &mut self,
        reading: &str,
        family: Option<&[PunctuationVariant]>,
        wanted: usize,
    ) -> (r: Result<(), ConversionError>)
        ensures
            match family {
                None => r is Ok && final(self)@ == old(self)@,
                Some(marks) => {
                    let kept = without_family(old(self)@, marks@);
                    let first = first_cost(kept, marks@.len());
                    let k = first_too_long(marks@, 0);
                    if strings::utf8_len(reading@) > u16::MAX {
                        &&& r == Err::<(), ConversionError>(ConversionError::ReadingTooLong)
                        &&& final(self)@ == old(self)@
                    } else if k < marks@.len() {
                        &&& r == Err::<(), ConversionError>(ConversionError::OutputTooLong)
                        &&& final(self)@ == members(marks@, reading@, first, k as nat) + kept
                    } else {
                        &&& r is Ok
                        &&& final(self)@ == at_most(
                            members(marks@, reading@, first, marks@.len()) + kept,
                            if wanted > marks@.len() {
                                wanted as nat
                            } else {
                                marks@.len()
                            },
                        )
                    }
                },
            },
    {
        let Some(marks) = family else {
            return Ok(());
        };
        let bytes: &[u8] = reading.as_bytes();
        if bytes.len() > 0xffff {
            return Err(ConversionError::ReadingTooLong);
        }
        let ghost start = self@;
        self.drop_family(marks);
        let ghost kept = self@;
        let first: i64 = self.cost_in_front(marks.len());
        let mut i: usize = 0;
        assert(members(marks@, reading@, first, 0) + kept =~= kept);
        while i < marks.len()
            invariant
                i <= marks@.len(),
                start == old(self)@,
                family matches Some(all) && all@ == marks@,
                kept == without_family(start, marks@),
                first == first_cost(kept, marks@.len()),
                strings::utf8_len(reading@) <= u16::MAX,
                first_too_long(marks@, 0) == first_too_long(marks@, i as int),
                self@ == members(marks@, reading@, first, i as nat) + kept,
            decreases marks@.len() - i,
        {
            let ghost before = self@;
            let mark: &PunctuationVariant = &marks[i];
            let Some(annotation) = bounded(mark.annotation.as_str()) else {
                return Err(ConversionError::OutputTooLong);
            };
            let mut text: FixedStr<MAX_PREEDIT_BYTES> = FixedStr::new();
            proof {
                strings::lemma_len_push(Seq::<char>::empty(), mark.glyph);
                strings::lemma_len_bounds(Seq::<char>::empty());
                strings::lemma_char_width(mark.glyph);
            }
            let pushed = text.push(mark.glyph);
            assert(pushed is Ok);
            assert(text@ =~= seq![mark.glyph]);
            let candidate = generate(text, annotation, reading, 0, 0, true, raise_cost(first, i));
            assert(self.candidates@.len() == self@.len());
            self.candidates.insert(i, candidate);
            assert(self@ =~= before.insert(i as int, candidate@));
            i = i + 1;
            assert(self@ =~= members(marks@, reading@, first, i as nat) + kept);
        }
        let most: usize = if wanted > marks.len() {
            wanted
        } else {
            marks.len()
        };
        let ghost all = self@;
        if self.candidates.len() > most {
            self.candidates.truncate(most);
            assert(self@ =~= all.take(most as int));
        }
        Ok(())
    }
}

} // verus!
