//! The ways to write a number, in front of everything that only sounds like it.

use super::{
    bounded, contains_text, generate, lower_cost, raise_cost, CandidateView, ConversionError,
    Converter,
};
use crate::conversion;
use crate::conversion::sorting;
use crate::numeral_laws;
use crate::numerals;
use crate::numerals::{
    is_decorative_numeral_char, parse_numeric_prefix, should_emit_numeric_span, NumericCounter,
    NumericSpan, NumericStyle, MAX_VALUE, NUMERIC_STYLES,
};
use crate::strings;
use crate::text;
use crate::values::{FixedStr, MAX_PREEDIT_BYTES};
use vstd::prelude::*;

verus! {

/// The number that a whole reading is, where it is worth its own candidates.
pub open spec fn number_read(reading: Seq<char>) -> Option<(int, Option<NumericCounter>)> {
    match numerals::number_at_start(reading) {
        Some((value, counter, n)) => if strings::utf8_len(reading.take(n)) == strings::utf8_len(
            reading,
        ) && (counter is Some || value >= 10) {
            Some((value, counter))
        } else {
            None
        },
        None => None,
    }
}

/// The text of a number in a style.
pub open spec fn form(style: NumericStyle, value: int, counter: Option<NumericCounter>) -> Seq<
    char,
> {
    numerals::span_pieces(
        style,
        NumericSpan { value: value as u32, counter, bytes: 0 },
    ).flatten()
}

/// The texts of a number in every style.
pub open spec fn forms(value: int, counter: Option<NumericCounter>) -> Seq<Seq<char>> {
    seq![
        form(NumericStyle::Arabic, value, counter),
        form(NumericStyle::FullWidth, value, counter),
        form(NumericStyle::Kanji, value, counter),
    ]
}

/// The first of several texts that is the given one, from `i` on.
pub open spec fn position(all: Seq<Seq<char>>, text: Seq<char>, i: int) -> Option<int>
    decreases all.len() - i,
{
    if i < 0 || i >= all.len() {
        None
    } else if all[i] == text {
        Some(i)
    } else {
        position(all, text, i + 1)
    }
}

/// The lowest cost of the first `n` candidates that are an entry of the dictionary
/// and write the number.
pub open spec fn lexical_cost(list: Seq<CandidateView>, all: Seq<Seq<char>>, n: int) -> Option<i64>
    decreases n,
{
    if n <= 0 {
        None
    } else {
        let before = lexical_cost(list, all, n - 1);
        let c = list[n - 1];
        if c.system_entry_index is Some && position(all, c.text, 0) is Some {
            conversion::lower(before, c.cost)
        } else {
            before
        }
    }
}

/// The cost of the form at `k` that was made up.
pub open spec fn form_cost_at(lexical: Option<i64>, form_cost: i64, k: int) -> i64 {
    match lexical {
        Some(cost) => conversion::cost_sum(conversion::cost_sum(cost as int, 1) as int, k),
        None => conversion::cost_sum(form_cost as int, k),
    }
}

/// A candidate that was made up and writes the number costs more than the entry of
/// the dictionary that does.
pub open spec fn behind_lexical(
    c: CandidateView,
    all: Seq<Seq<char>>,
    lexical: Option<i64>,
) -> CandidateView {
    match (lexical, position(all, c.text, 0)) {
        (Some(cost), Some(k)) => {
            let least = form_cost_at(lexical, 0, k);
            if c.path_evidence.generated_edges != 0 && c.cost < least {
                CandidateView { cost: least, ..c }
            } else {
                c
            }
        },
        _ => c,
    }
}

/// A list with what was made up behind the entry of the dictionary.
pub open spec fn all_behind_lexical(
    list: Seq<CandidateView>,
    all: Seq<Seq<char>>,
    lexical: Option<i64>,
) -> Seq<CandidateView> {
    Seq::new(list.len(), |i: int| behind_lexical(list[i], all, lexical))
}

/// Whether a text holds a digit for decoration.
pub open spec fn decorated(text: Seq<char>) -> bool {
    exists|i: int| 0 <= i < text.len() && numerals::decorative(#[trigger] text[i])
}

/// Whether a candidate stays beside the ways to write the number.
pub open spec fn stays(c: CandidateView, all: Seq<Seq<char>>, reading: Seq<char>) -> bool {
    !decorated(c.text) && (position(all, c.text, 0) is Some || c.text == reading
        || c.system_entry_index is Some)
}

/// The candidates that stay.
pub open spec fn staying(list: Seq<CandidateView>, all: Seq<Seq<char>>, reading: Seq<char>) -> Seq<
    CandidateView,
>
    decreases list.len(),
{
    if list.len() == 0 {
        Seq::empty()
    } else if stays(list[0], all, reading) {
        seq![list[0]] + staying(list.skip(1), all, reading)
    } else {
        staying(list.skip(1), all, reading)
    }
}

/// A list with the first `n` forms of the number, where they are not there.
pub open spec fn with_forms(
    list: Seq<CandidateView>,
    all: Seq<Seq<char>>,
    reading: Seq<char>,
    lexical: Option<i64>,
    form_cost: i64,
    n: int,
) -> Seq<CandidateView>
    decreases n,
{
    if n <= 0 {
        list
    } else {
        let before = with_forms(list, all, reading, lexical, form_cost, n - 1);
        if conversion::has_text(before, all[n - 1]) {
            before
        } else {
            before.push(
                conversion::generated(
                    all[n - 1],
                    NUMERIC_STYLES@[n - 1].annotation_of(),
                    reading,
                    0,
                    0,
                    false,
                    form_cost_at(lexical, form_cost, n - 1),
                ),
            )
        }
    }
}

/// Whether every form of the number is there.
pub open spec fn has_all(list: Seq<CandidateView>, all: Seq<Seq<char>>) -> bool {
    forall|k: int| 0 <= k < all.len() ==> conversion::has_text(list, #[trigger] all[k])
}

// ---------------------------------------------------------------------------
// The forms.

/// The texts of a list.
pub open spec fn texts(list: Seq<FixedStr<MAX_PREEDIT_BYTES>>) -> Seq<Seq<char>> {
    Seq::new(list.len(), |i: int| list[i]@)
}

/// The text of pieces of one character each is no longer than there are pieces.
proof fn lemma_flatten_len(pieces: Seq<Seq<char>>, most: nat)
    requires
        forall|i: int| 0 <= i < pieces.len() ==> (#[trigger] pieces[i]).len() <= most,
    ensures
        pieces.flatten().len() <= most * pieces.len(),
    decreases pieces.len(),
{
    if pieces.len() > 0 {
        let rest = pieces.drop_first();
        assert forall|i: int| 0 <= i < rest.len() implies (#[trigger] rest[i]).len() <= most by {
            assert(rest[i] == pieces[i + 1]);
        }
        lemma_flatten_len(rest, most);
        assert(pieces.flatten() == pieces[0] + rest.flatten());
        assert(most * pieces.len() == most + most * rest.len()) by (nonlinear_arith)
            requires
                pieces.len() == rest.len() + 1,
        ;
    }
}

/// Every form of a number fits a candidate.
#[verifier::spinoff_prover]
#[verifier::rlimit(50)]
proof fn lemma_form_fits(style: NumericStyle, value: int, counter: Option<NumericCounter>)
    requires
        0 <= value <= MAX_VALUE,
    ensures
        strings::utf8_len(form(style, value, counter)) <= MAX_PREEDIT_BYTES,
{
    let span = NumericSpan { value: value as u32, counter, bytes: 0 };
    let pieces = numerals::span_pieces(style, span);
    reveal_strlit("日");
    reveal_strlit("月");
    reveal_strlit("年");
    numeral_laws::lemma_decimal_len(value as nat);
    match style {
        NumericStyle::Arabic => {},
        NumericStyle::FullWidth => {},
        NumericStyle::Kanji => {
            reveal_strlit("千");
            reveal_strlit("百");
            reveal_strlit("十");
            reveal_strlit("零");
            reveal_strlit("一");
            reveal_strlit("二");
            reveal_strlit("三");
            reveal_strlit("四");
            reveal_strlit("五");
            reveal_strlit("六");
            reveal_strlit("七");
            reveal_strlit("八");
            reveal_strlit("九");
        },
    }
    assert(pieces.len() <= 8);
    lemma_flatten_len(pieces, 4);
    strings::lemma_len_bounds(pieces.flatten());
}

/// Every note of a style fits a candidate.
proof fn lemma_annotation_fits(style: NumericStyle)
    ensures
        strings::utf8_len(style.annotation_of()) <= MAX_PREEDIT_BYTES,
{
    reveal_strlit("算用数字");
    reveal_strlit("全角数字");
    reveal_strlit("漢数字");
    strings::lemma_len_bounds(style.annotation_of());
}

/// Writes a number in every style.
fn write_forms(span: NumericSpan) -> (r: Vec<FixedStr<MAX_PREEDIT_BYTES>>)
    requires
        span.value <= MAX_VALUE,
    ensures
        texts(r@) == forms(span.value as int, span.counter),
        forall|i: int| 0 <= i < r@.len() ==> (#[trigger] r@[i]).wf(),
{
    let ghost all = forms(span.value as int, span.counter);
    let mut r: Vec<FixedStr<MAX_PREEDIT_BYTES>> = Vec::new();
    let mut i: usize = 0;
    while i < 3
        invariant
            i <= 3,
            span.value <= MAX_VALUE,
            all == forms(span.value as int, span.counter),
            texts(r@) == all.take(i as int),
            forall|k: int| 0 <= k < r@.len() ==> (#[trigger] r@[k]).wf(),
        decreases 3 - i,
    {
        let style: NumericStyle = NUMERIC_STYLES[i];
        let mut text: FixedStr<MAX_PREEDIT_BYTES> = FixedStr::new();
        let ghost before = texts(r@);
        proof {
            let pieces = numerals::span_pieces(style, span);
            assert(pieces == numerals::span_pieces(
                style,
                NumericSpan { value: span.value, counter: span.counter, bytes: 0 },
            ));
            lemma_form_fits(style, span.value as int, span.counter);
            text::lemma_written(Some(MAX_PREEDIT_BYTES as nat), Seq::empty(), pieces);
            assert(Seq::<char>::empty() + pieces.flatten() =~= pieces.flatten());
            assert(all[i as int] == pieces.flatten());
        }
        let written = style.write(span, &mut text);
        assert(written is Ok);
        assert(text@ == all[i as int]);
        r.push(text);
        assert(texts(r@) =~= before.push(text@));
        i = i + 1;
        assert(all.take(i as int) =~= all.take(i - 1).push(all[i - 1]));
    }
    assert(all.take(3) =~= all);
    r
}

/// The position of a text among the forms.
fn find_form(all: &[FixedStr<MAX_PREEDIT_BYTES>], text: &str) -> (r: Option<usize>)
    ensures
        match position(texts(all@), text@, 0) {
            Some(k) => r matches Some(i) && i == k && k < all@.len(),
            None => r is None,
        },
{
    let mut i: usize = 0;
    while i < all.len()
        invariant
            i <= all@.len(),
            position(texts(all@), text@, 0) == position(texts(all@), text@, i as int),
        decreases all@.len() - i,
    {
        assert(texts(all@)[i as int] == all@[i as int]@);
        if strings::same_text(all[i].as_str(), text) {
            return Some(i);
        }
        i = i + 1;
    }
    None
}

/// Whether a text holds a digit for decoration.
fn is_decorated(text: &str) -> (r: bool)
    ensures
        r == decorated(text@),
{
    let chars: Vec<char> = strings::chars_of(text);
    let mut i: usize = 0;
    while i < chars.len()
        invariant
            i <= chars@.len(),
            chars@ == text@,
            forall|k: int| 0 <= k < i ==> !numerals::decorative(#[trigger] text@[k]),
        decreases chars@.len() - i,
    {
        if is_decorative_numeral_char(chars[i]) {
            assert(numerals::decorative(text@[i as int]));
            return true;
        }
        i = i + 1;
    }
    false
}

/// The cost of the form at `k` that was made up.
fn cost_of_form(lexical: Option<i64>, form_cost: i64, k: usize) -> (r: i64)
    ensures
        r == form_cost_at(lexical, form_cost, k as int),
{
    match lexical {
        Some(cost) => raise_cost(raise_cost(cost, 1), k),
        None => raise_cost(form_cost, k),
    }
}

impl Converter {
    /// The lowest cost of an entry of the dictionary that writes the number.
    fn lexical_form_cost(&self, all: &[FixedStr<MAX_PREEDIT_BYTES>]) -> (r: Option<i64>)
        ensures
            r == lexical_cost(self@, texts(all@), self@.len() as int),
    {
        let mut best: Option<i64> = None;
        let mut i: usize = 0;
        while i < self.candidates.len()
            invariant
                i <= self.candidates@.len(),
                best == lexical_cost(self@, texts(all@), i as int),
            decreases self.candidates@.len() - i,
        {
            assert(self@[i as int] == self.candidates@[i as int]@);
            if self.candidates[i].system_entry_index.is_some() && find_form(
                all,
                self.candidates[i].text.as_str(),
            ).is_some() {
                best = lower_cost(best, self.candidates[i].cost);
            }
            i = i + 1;
        }
        best
    }

    /// Puts what was made up behind the entry of the dictionary.
    fn raise_generated(&mut self, all: &[FixedStr<MAX_PREEDIT_BYTES>], lexical: Option<i64>)
        ensures
            final(self)@ == all_behind_lexical(old(self)@, texts(all@), lexical),
    {
        let ghost start = self@;
        let ghost goal = all_behind_lexical(start, texts(all@), lexical);
        let mut i: usize = 0;
        while i < self.candidates.len()
            invariant
                i <= self.candidates@.len(),
                self.candidates@.len() == start.len(),
                goal == all_behind_lexical(start, texts(all@), lexical),
                forall|j: int| 0 <= j < i ==> (#[trigger] self.candidates@[j])@ == goal[j],
                forall|j: int|
                    i <= j < start.len() ==> (#[trigger] self.candidates@[j])@ == start[j],
            decreases self.candidates@.len() - i,
        {
            assert(goal[i as int] == behind_lexical(start[i as int], texts(all@), lexical));
            assert(self.candidates@[i as int]@ == start[i as int]);
            if lexical.is_some() && self.candidates[i].path_evidence.generated_edges != 0 {
                if let Some(k) = find_form(all, self.candidates[i].text.as_str()) {
                    let least: i64 = cost_of_form(lexical, 0, k);
                    if self.candidates[i].cost < least {
                        self.candidates[i].cost = least;
                    }
                }
            }
            i = i + 1;
        }
        assert(self@ =~= goal);
    }

    /// Takes out what only sounds like the number.
    fn keep_numeric(&mut self, all: &[FixedStr<MAX_PREEDIT_BYTES>], reading: &str)
        ensures
            final(self)@ == staying(old(self)@, texts(all@), reading@),
    {
        let ghost start = self@;
        let ghost list = texts(all@);
        let mut i: usize = 0;
        assert(start.skip(0) =~= start);
        assert(start.take(0) + staying(start.skip(0), list, reading@) =~= staying(
            start,
            list,
            reading@,
        ));
        while i < self.candidates.len()
            invariant
                i <= self.candidates@.len(),
                list == texts(all@),
                self@.take(i as int) + staying(self@.skip(i as int), list, reading@) == staying(
                    start,
                    list,
                    reading@,
                ),
            decreases self.candidates@.len() - i,
        {
            let ghost now = self@;
            let ghost rest = now.skip(i as int);
            assert(rest[0] == self.candidates@[i as int]@);
            assert(rest.skip(1) =~= now.skip(i + 1));
            let text: &str = self.candidates[i].text.as_str();
            let keep: bool = !is_decorated(text) && (find_form(all, text).is_some()
                || strings::same_text(text, reading)
                || self.candidates[i].system_entry_index.is_some());
            if !keep {
                self.candidates.remove(i);
                assert(self@ =~= now.remove(i as int));
                assert(self@.skip(i as int) =~= now.skip(i + 1));
                assert(self@.take(i as int) =~= now.take(i as int));
            } else {
                i = i + 1;
                assert(now.take(i as int) =~= now.take(i - 1).push(rest[0]));
                assert(now.take(i as int) + staying(now.skip(i as int), list, reading@)
                    =~= now.take(i - 1) + (seq![rest[0]] + staying(
                    rest.skip(1),
                    list,
                    reading@,
                )));
            }
        }
        assert(self@.take(i as int) + staying(self@.skip(i as int), list, reading@) =~= self@);
    }

    /// Where a reading is a number, offers it in every style, takes out what only
    /// sounds like it, and sorts. What is written as an entry of the dictionary goes
    /// before what is made up; without such an entry the first form costs
    /// `form_cost`.
    pub fn prefer_numeric_forms(&mut self, reading: &str, form_cost: i64) -> (r: Result<
        (),
        ConversionError,
    >)
        ensures
            match number_read(reading@) {
                None => r is Ok && final(self)@ == old(self)@,
                Some((value, counter)) => {
                    let all = forms(value, counter);
                    let lexical = lexical_cost(old(self)@, all, old(self)@.len() as int);
                    let kept = staying(
                        all_behind_lexical(old(self)@, all, lexical),
                        all,
                        reading@,
                    );
                    if strings::utf8_len(reading@) > u16::MAX && !has_all(kept, all) {
                        &&& r == Err::<(), ConversionError>(ConversionError::ReadingTooLong)
                        &&& final(self)@ == kept
                    } else {
                        &&& r is Ok
                        &&& final(self)@ == sorting::stable_sorted(
                            with_forms(kept, all, reading@, lexical, form_cost, 3),
                        )
                    }
                },
            },
    {
        let Some(span) = parse_numeric_prefix(reading) else {
            return Ok(());
        };
        let bytes: &[u8] = reading.as_bytes();
        if span.bytes != bytes.len() || !should_emit_numeric_span(span) {
            return Ok(());
        }
        proof {
            numeral_laws::numbers_are_bounded(reading@);
        }
        let forms_written: Vec<FixedStr<MAX_PREEDIT_BYTES>> = write_forms(span);
        let ghost all = forms(span.value as int, span.counter);
        let lexical: Option<i64> = self.lexical_form_cost(&forms_written);
        self.raise_generated(&forms_written, lexical);
        self.keep_numeric(&forms_written, reading);
        let ghost kept = self@;
        let too_long: bool = bytes.len() > 0xffff;
        let mut i: usize = 0;
        while i < 3
            invariant
                i <= 3,
                all.len() == 3,
                all == texts(forms_written@),
                forall|k: int|
                    0 <= k < forms_written@.len() ==> (#[trigger] forms_written@[k]).wf(),
                too_long == (strings::utf8_len(reading@) > u16::MAX),
                self@ == with_forms(kept, all, reading@, lexical, form_cost, i as int),
                too_long ==> self@ == kept && forall|k: int|
                    0 <= k < i ==> conversion::has_text(kept, #[trigger] all[k]),
                number_read(reading@) == Some((span.value as int, span.counter)),
                all == forms(span.value as int, span.counter),
                kept == staying(
                    all_behind_lexical(old(self)@, all, lexical),
                    all,
                    reading@,
                ),
                lexical == lexical_cost(old(self)@, all, old(self)@.len() as int),
            decreases 3 - i,
        {
            let ghost before = self@;
            assert(all[i as int] == forms_written@[i as int]@);
            if !contains_text(&self.candidates, forms_written[i].as_str()) {
                if too_long {
                    assert(!conversion::has_text(kept, all[i as int]));
                    return Err(ConversionError::ReadingTooLong);
                }
                let style: NumericStyle = NUMERIC_STYLES[i];
                proof {
                    lemma_annotation_fits(style);
                }
                if let Some(annotation) = bounded(style.annotation()) {
                    let candidate = generate(
                        forms_written[i].clone(),
                        annotation,
                        reading,
                        0,
                        0,
                        false,
                        cost_of_form(lexical, form_cost, i),
                    );
                    self.candidates.push(candidate);
                    assert(self@ =~= before.push(candidate@));
                }
            }
            i = i + 1;
        }
        self.sort_by_cost();
        Ok(())
    }
}

} // verus!
