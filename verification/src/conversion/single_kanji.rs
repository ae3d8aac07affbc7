//! Single kanji, behind everything that the search found.

use super::characters;
use super::characters::insert_character;
use super::{bounded, generate, CandidateView, ConversionError, Converter};
use crate::conversion;
use crate::dictionary::image;
use crate::dictionary::{Dictionary, SingleKanjiVariant};
use crate::strings;
use crate::values::{FixedStr, MAX_PREEDIT_BYTES};
use vstd::prelude::*;
#[allow(unused_imports)]
use vstd::utf8::*;

verus! {

/// The note of a kanji that is no variant of another.
pub const SINGLE_KANJI_ANNOTATION: &'static str = "単漢字";

/// The kanji that a dictionary has for a reading.
pub open spec fn kanji_for(d: image::ImageView, reading: Seq<char>) -> Seq<char> {
    match d.single_kanji {
        None => Seq::empty(),
        Some(t) => t.chars_for(encode_utf8(reading)),
    }
}

/// The note of a kanji: how it relates to another, such as 異体字（高）, or that it is
/// a single kanji.
pub open spec fn note_of(d: image::ImageView, c: char) -> Seq<char> {
    match d.single_kanji {
        None => SINGLE_KANJI_ANNOTATION@,
        Some(t) => match t.find_variant(c as int) {
            None => SINGLE_KANJI_ANNOTATION@,
            Some(i) => match t.kind(i) {
                None => SINGLE_KANJI_ANNOTATION@,
                Some(kind) => kind.label_of().push('（').push(t.original(i) as char).push('）'),
            },
        },
    }
}

/// The highest cost of the first `n` candidates.
pub open spec fn highest_cost(list: Seq<CandidateView>, n: int) -> Option<i64>
    decreases n,
{
    if n <= 0 {
        None
    } else {
        match highest_cost(list, n - 1) {
            Some(cost) => if cost >= list[n - 1].cost {
                Some(cost)
            } else {
                Some(list[n - 1].cost)
            },
            None => Some(list[n - 1].cost),
        }
    }
}

/// Whether a character is one of the first `n`.
pub open spec fn occurs_before(chars: Seq<char>, c: char, n: int) -> bool {
    exists|m: int| 0 <= m < n && #[trigger] chars[m] == c
}

/// A list with the first `n` kanji behind it. A kanji that is a candidate already, or
/// that came before, is left out, and so is everything once the list has `wanted`
/// candidates.
pub open spec fn with_kanji(
    list: Seq<CandidateView>,
    d: image::ImageView,
    reading: Seq<char>,
    chars: Seq<char>,
    n: int,
    wanted: nat,
    class: u16,
) -> Seq<CandidateView>
    decreases n,
{
    if n <= 0 {
        list
    } else {
        let before = with_kanji(list, d, reading, chars, n - 1, wanted, class);
        let c = chars[n - 1];
        let note = note_of(d, c);
        let ceiling = match highest_cost(list, list.len() as int) {
            Some(cost) => cost,
            None => 0,
        };
        if before.len() >= wanted || conversion::has_text(list, seq![c]) || occurs_before(
            chars,
            c,
            n - 1,
        ) || strings::utf8_len(note) > MAX_PREEDIT_BYTES {
            before
        } else {
            before.push(
                conversion::generated(
                    seq![c],
                    note,
                    reading,
                    class,
                    class,
                    false,
                    conversion::cost_sum(ceiling as int, n),
                ),
            )
        }
    }
}

/// The number of slots that are taken, of the first `n`.
spec fn taken(table: Seq<u32>, n: int) -> int
    decreases n,
{
    if n <= 0 {
        0
    } else {
        taken(table, n - 1) + if table[n - 1] != 0 {
            1int
        } else {
            0
        }
    }
}

proof fn lemma_taken_update(table: Seq<u32>, i: int, key: u32, n: int)
    requires
        0 <= i < table.len(),
        0 <= n <= table.len(),
    ensures
        taken(table.update(i, key), n) <= taken(table, n) + 1,
    decreases n,
{
    if n > 0 {
        lemma_taken_update(table, i, key, n - 1);
        if i == n - 1 {
            lemma_taken_same(table, i, key, n - 1);
        }
    }
}

proof fn lemma_taken_same(table: Seq<u32>, i: int, key: u32, n: int)
    requires
        0 <= i < table.len(),
        0 <= n <= i,
    ensures
        taken(table.update(i, key), n) == taken(table, n),
    decreases n,
{
    if n > 0 {
        lemma_taken_same(table, i, key, n - 1);
    }
}

/// A table with fewer keys than slots has room.
proof fn lemma_has_room(table: Seq<u32>, n: int)
    requires
        0 <= n <= table.len(),
        taken(table, n) < n,
    ensures
        characters::has_room(table),
    decreases n,
{
    if n > 0 && table[n - 1] != 0 {
        lemma_has_room(table, n - 1);
    }
}

/// Whether a character by itself is one of the first `k` candidates.
spec fn single_before(list: Seq<CandidateView>, c: char, k: int) -> bool {
    exists|i: int| 0 <= i < k && (#[trigger] list[i]).text == seq![c]
}

/// Puts a character in a table that has room.
fn insert(table: &mut Vec<u32>, c: char) -> (r: bool)
    requires
        old(table)@.len() > 0,
        characters::reachable(old(table)@),
        taken(old(table)@, old(table)@.len() as int) < old(table)@.len(),
    ensures
        final(table)@.len() == old(table)@.len(),
        characters::reachable(final(table)@),
        taken(final(table)@, final(table)@.len() as int) <= taken(
            old(table)@,
            old(table)@.len() as int,
        ) + 1,
        r == !characters::holds(old(table)@, c),
        forall|d: char|
            #![trigger characters::holds(final(table)@, d)]
            characters::holds(final(table)@, d) == (d == c || characters::holds(old(table)@, d)),
{
    let ghost before = table@;
    proof {
        lemma_has_room(before, before.len() as int);
        characters::insertion_is_into_a_set(before, c);
    }
    let r = insert_character(table.as_mut_slice(), c);
    proof {
        assert(table@ == characters::inserted(before, c).0);
        if r {
            let key = characters::key_of(c);
            let k = choose|k: int| #[trigger] characters::stops_at(before, key, k);
            let i = characters::slot(key, before.len() as int, k);
            characters::lemma_slot(key, before.len() as int, k);
            lemma_taken_update(before, i, key, before.len() as int);
        }
    }
    r
}

/// The note of a kanji, where it fits.
fn single_kanji_annotation(dictionary: &Dictionary, c: char) -> (r: Option<
    FixedStr<MAX_PREEDIT_BYTES>,
>)
    requires
        dictionary@.valid(),
    ensures
        match r {
            Some(note) => note@ == note_of(dictionary@, c) && note.wf(),
            None => strings::utf8_len(note_of(dictionary@, c)) > MAX_PREEDIT_BYTES,
        },
{
    match dictionary.single_kanji_variant(c) {
        None => bounded(SINGLE_KANJI_ANNOTATION),
        Some(variant) => {
            let SingleKanjiVariant { original, kind } = variant;
            let mut note: String = kind.label().to_owned();
            strings::push_char(&mut note, '（');
            strings::push_char(&mut note, original);
            strings::push_char(&mut note, '）');
            bounded(note.as_str())
        },
    }
}

impl Converter {
    /// The highest cost, or zero.
    fn ceiling(&self) -> (r: i64)
        ensures
            r == (match highest_cost(self@, self@.len() as int) {
                Some(cost) => cost,
                None => 0,
            }),
    {
        let mut highest: Option<i64> = None;
        let mut i: usize = 0;
        while i < self.candidates.len()
            invariant
                i <= self.candidates@.len(),
                highest == highest_cost(self@, i as int),
            decreases self.candidates@.len() - i,
        {
            assert(self@[i as int] == self.candidates@[i as int]@);
            let cost: i64 = self.candidates[i].cost;
            highest =
            match highest {
                Some(high) => if high >= cost {
                    Some(high)
                } else {
                    Some(cost)
                },
                None => Some(cost),
            };
            i = i + 1;
        }
        match highest {
            Some(cost) => cost,
            None => 0,
        }
    }

    /// A table with the candidates of one character, and room for `more`.
    fn known_characters(&self, more: usize) -> (table: Vec<u32>)
        requires
            self@.len() + more < usize::MAX,
        ensures
            characters::reachable(table@),
            taken(table@, table@.len() as int) + more < table@.len(),
            forall|c: char|
                #![trigger characters::holds(table@, c)]
                characters::holds(table@, c) == conversion::has_text(self@, seq![c]),
    {
        let count: usize = self.candidates.len();
        let size: usize = count + more + 1;
        let mut table: Vec<u32> = Vec::new();
        while table.len() < size
            invariant
                table@.len() <= size,
                forall|i: int| 0 <= i < table@.len() ==> #[trigger] table@[i] == 0,
                taken(table@, table@.len() as int) == 0,
            decreases size - table@.len(),
        {
            let ghost before = table@;
            table.push(0);
            proof {
                lemma_taken_push(before, 0, before.len() as int);
            }
        }
        assert forall|c: char| !#[trigger] characters::holds(table@, c) by {
            characters::lemma_keys_differ(c, c);
        }
        let mut i: usize = 0;
        while i < count
            invariant
                i <= count == self.candidates@.len(),
                size == count + more + 1,
                table@.len() == size,
                characters::reachable(table@),
                taken(table@, table@.len() as int) <= i,
                forall|c: char|
                    #![trigger characters::holds(table@, c)]
                    characters::holds(table@, c) == single_before(self@, c, i as int),
            decreases count - i,
        {
            assert(self@[i as int] == self.candidates@[i as int]@);
            let chars: Vec<char> = strings::chars_of(self.candidates[i].text.as_str());
            let ghost before = table@;
            if chars.len() == 1 {
                let c: char = chars[0];
                insert(&mut table, c);
                assert(self@[i as int].text =~= seq![c]);
            }
            proof {
                assert forall|d: char|
                    #![trigger characters::holds(table@, d)]
                    characters::holds(table@, d) == single_before(self@, d, i + 1) by {
                    let was = characters::holds(before, d);
                    assert(was == single_before(self@, d, i as int));
                    if self@[i as int].text == seq![d] {
                        assert(seq![d][0] == d);
                        assert(single_before(self@, d, i + 1));
                    } else if chars@.len() == 1 && chars@[0] == d {
                        assert(chars@ =~= seq![d]);
                    }
                    if was {
                        let k = choose|k: int|
                            0 <= k < i && (#[trigger] self@[k]).text == seq![d];
                        assert(single_before(self@, d, i + 1));
                    }
                }
            }
            i = i + 1;
        }
        proof {
            assert forall|c: char|
                #![trigger characters::holds(table@, c)]
                characters::holds(table@, c) == conversion::has_text(self@, seq![c]) by {
                assert(characters::holds(table@, c) == single_before(self@, c, i as int));
            }
        }
        table
    }

    /// Adds the kanji of a dictionary for a reading, up to `wanted` candidates. They
    /// come last, whatever they cost: single kanji are too many to compete with what
    /// the search found. `noun_class` is the connection class of a noun.
    pub fn append_single_kanji(
        &mut self,
        dictionary: &Dictionary,
        reading: &str,
        wanted: usize,
        noun_class: u16,
    ) -> (r: Result<(), ConversionError>)
        requires
            dictionary@.valid(),
            old(self)@.len() + kanji_for(dictionary@, reading@).len() < usize::MAX,
        ensures
            if old(self)@.len() >= wanted || dictionary@.single_kanji is None {
                r is Ok && final(self)@ == old(self)@
            } else if strings::utf8_len(reading@) > u16::MAX {
                &&& r == Err::<(), ConversionError>(ConversionError::ReadingTooLong)
                &&& final(self)@ == old(self)@
            } else {
                let chars = kanji_for(dictionary@, reading@);
                &&& r is Ok
                &&& final(self)@ == with_kanji(
                    old(self)@,
                    dictionary@,
                    reading@,
                    chars,
                    chars.len() as int,
                    wanted as nat,
                    if dictionary@.class_count > noun_class {
                        noun_class
                    } else {
                        0
                    },
                )
            },
    {
        if self.candidates.len() >= wanted || !dictionary.has_single_kanji() {
            return Ok(());
        }
        let bytes: &[u8] = reading.as_bytes();
        if bytes.len() > 0xffff {
            return Err(ConversionError::ReadingTooLong);
        }
        let class: u16 = if dictionary.class_count() > noun_class as usize {
            noun_class
        } else {
            0
        };
        let ceiling: i64 = self.ceiling();
        let chars: Vec<char> = dictionary.single_kanji(reading);
        let mut table: Vec<u32> = self.known_characters(chars.len());
        let ghost start = self@;
        let mut i: usize = 0;
        while i < chars.len() && self.candidates.len() < wanted
            invariant
                i <= chars@.len(),
                start == old(self)@,
                dictionary@.valid(),
                chars@ == kanji_for(dictionary@, reading@),
                strings::utf8_len(reading@) <= u16::MAX,
                ceiling == (match highest_cost(start, start.len() as int) {
                    Some(cost) => cost,
                    None => 0,
                }),
                characters::reachable(table@),
                taken(table@, table@.len() as int) + (chars@.len() - i) < table@.len(),
                forall|c: char|
                    #![trigger characters::holds(table@, c)]
                    characters::holds(table@, c) == (conversion::has_text(start, seq![c])
                        || occurs_before(chars@, c, i as int)),
                self@ == with_kanji(
                    start,
                    dictionary@,
                    reading@,
                    chars@,
                    i as int,
                    wanted as nat,
                    class,
                ),
            decreases chars@.len() - i,
        {
            let c: char = chars[i];
            let ghost before = self@;
            let ghost old_table = table@;
            let new: bool = insert(&mut table, c);
            if new {
                if let Some(note) = single_kanji_annotation(dictionary, c) {
                    let mut text: FixedStr<MAX_PREEDIT_BYTES> = FixedStr::new();
                    proof {
                        strings::lemma_len_push(Seq::<char>::empty(), c);
                        strings::lemma_len_bounds(Seq::<char>::empty());
                        strings::lemma_char_width(c);
                    }
                    let pushed = text.push(c);
                    assert(pushed is Ok);
                    assert(text@ =~= seq![c]);
                    let candidate = generate(
                        text,
                        note,
                        reading,
                        class,
                        class,
                        false,
                        super::raise_cost(ceiling, i + 1),
                    );
                    self.candidates.push(candidate);
                    assert(self@ =~= before.push(candidate@));
                }
            }
            proof {
                assert forall|d: char|
                    #![trigger characters::holds(table@, d)]
                    characters::holds(table@, d) == (conversion::has_text(start, seq![d])
                        || occurs_before(chars@, d, i + 1)) by {
                    assert(characters::holds(old_table, d) == (conversion::has_text(
                        start,
                        seq![d],
                    ) || occurs_before(chars@, d, i as int)));
                    if occurs_before(chars@, d, i as int) {
                        let m = choose|m: int| 0 <= m < i && #[trigger] chars@[m] == d;
                        assert(occurs_before(chars@, d, i + 1));
                    }
                    if d == c {
                        assert(chars@[i as int] == d);
                    }
                }
            }
            i = i + 1;
        }
        proof {
            lemma_full_list_stays(
                start,
                dictionary@,
                reading@,
                chars@,
                i as int,
                chars@.len() as int,
                wanted as nat,
                class,
            );
        }
        Ok(())
    }
}

proof fn lemma_taken_push(table: Seq<u32>, key: u32, n: int)
    requires
        0 <= n <= table.len(),
    ensures
        taken(table.push(key), n) == taken(table, n),
        key == 0 ==> taken(table.push(key), table.len() as int + 1) == taken(
            table.push(key),
            table.len() as int,
        ),
    decreases n,
{
    if n > 0 {
        lemma_taken_push(table, key, n - 1);
    }
}

/// A list that has all it can have stays as it is.
proof fn lemma_full_list_stays(
    list: Seq<CandidateView>,
    d: image::ImageView,
    reading: Seq<char>,
    chars: Seq<char>,
    m: int,
    n: int,
    wanted: nat,
    class: u16,
)
    requires
        0 <= m <= n,
        m == n || with_kanji(list, d, reading, chars, m, wanted, class).len() >= wanted,
    ensures
        with_kanji(list, d, reading, chars, n, wanted, class) == with_kanji(
            list,
            d,
            reading,
            chars,
            m,
            wanted,
            class,
        ),
    decreases n - m,
{
    if m < n {
        lemma_full_list_stays(list, d, reading, chars, m, n - 1, wanted, class);
    }
}

} // verus!
