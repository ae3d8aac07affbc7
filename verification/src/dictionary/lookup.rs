//! Read-only queries over a valid image.

use super::image;
use super::image_format;
use super::louds::Node;
use super::model;
use super::raw;
use super::surfaces::{apply_record, packed_record};
use super::validate::{boundary_bit, single_kanji_reading};
use super::{
    text_record, Dictionary, Entry, Error, ImageVersion, PrefixMatch, SingleKanji,
    SingleKanjiVariant, SingleKanjiVariantKind,
};
use crate::strings;
use crate::text;
use crate::text::TextSink;
use crate::values::{FixedStr, MAX_PREEDIT_BYTES};
use vstd::prelude::*;
#[allow(unused_imports)]
use vstd::utf8::*;

verus! {

impl<'a> Dictionary<'a> {
    /// Whether a segment boundary separates a word that ends with the class
    /// `right_id` from a word that starts with the class `left_id`.
    ///
    /// `None` where the image has no boundary table. Classes out of range have
    /// a boundary, so that they can only ever split segments.
    pub fn bunsetsu_boundary(&self, right_id: u16, left_id: u16) -> (r: Option<bool>)
        requires
            self@.valid(),
        ensures
            r == (match self@.boundaries {
                None => None,
                Some(rows) => Some(
                    right_id >= self@.class_count || left_id >= self@.class_count
                        || image::boundary_bit(
                        rows,
                        self@.class_count,
                        right_id as int,
                        left_id as int,
                    ),
                ),
            }),
    {
        proof {
            reveal(image::ImageView::valid);
        }
        let Some(rows) = self.boundaries else {
            return None;
        };
        let (right, left): (usize, usize) = (right_id as usize, left_id as usize);
        if right >= self.class_count || left >= self.class_count {
            return Some(true);
        }
        Some(boundary_bit(rows, self.class_count, right, left))
    }

    /// Whether the image has the optional tables of single kanji.
    pub fn has_single_kanji(&self) -> (r: bool)
        ensures
            r == self@.single_kanji is Some,
    {
        self.single_kanji.is_some()
    }

    /// The index record of a reading: its first character, and the one behind
    /// its last.
    fn single_kanji_span(&self, reading: &str) -> (r: (usize, usize))
        requires
            self@.valid(),
        ensures
            match self@.single_kanji {
                None => r == (0usize, 0usize),
                Some(t) => match t.find(encode_utf8(reading@)) {
                    None => r == (0usize, 0usize),
                    Some(i) => r.0 == t.char_start(i) && r.1 == t.char_end(i) && 0 <= i
                        < t.index_count,
                },
            },
    {
        proof {
            reveal(image::ImageView::valid);
        }
        let Some(table) = self.single_kanji else {
            return (0, 0);
        };
        let ghost t = table.view();
        let needle: &[u8] = reading.as_bytes();
        let mut low: usize = 0;
        let mut high: usize = table.index_count;
        while low < high
            invariant
                t == table.view(),
                t.shaped(),
                image::single_kanji_error(t) is None,
                needle@ == encode_utf8(reading@),
                low <= high <= table.index_count,
                forall|i: int| 0 <= i < low ==> raw::before(#[trigger] t.reading(i), needle@),
                forall|i: int|
                    high <= i < t.index_count ==> raw::before(needle@, #[trigger] t.reading(i)),
                self@.single_kanji == Some(t),
            decreases high - low,
        {
            let middle: usize = low + (high - low) / 2;
            proof {
                model::lemma_index_records(t, 0, middle as int);
            }
            let candidate = single_kanji_reading(&table, middle);
            let (less, same) = raw::order_bytes(candidate, needle);
            if same {
                proof {
                    assert forall|i: int|
                        0 <= i < t.index_count && #[trigger] t.reading(i) == needle@ implies i
                        == middle by {
                        raw::lemma_before_irreflexive(needle@);
                        if i < middle {
                            model::lemma_readings_ascend(t, i, middle as int);
                        } else if i > middle {
                            model::lemma_readings_ascend(t, middle as int, i);
                        }
                    }
                    assert(t.reading(middle as int) == needle@);
                }
                return single_kanji_chars(&table, middle);
            }
            if less {
                proof {
                    assert forall|i: int| 0 <= i < middle + 1 implies raw::before(
                        #[trigger] t.reading(i),
                        needle@,
                    ) by {
                        if i < middle {
                            model::lemma_readings_ascend(t, i, middle as int);
                            raw::lemma_before_transitive(
                                t.reading(i),
                                t.reading(middle as int),
                                needle@,
                            );
                        }
                    }
                }
                low = middle + 1;
            } else {
                proof {
                    assert forall|i: int| middle <= i < t.index_count implies raw::before(
                        needle@,
                        #[trigger] t.reading(i),
                    ) by {
                        if i > middle {
                            model::lemma_readings_ascend(t, middle as int, i);
                            raw::lemma_before_transitive(
                                needle@,
                                t.reading(middle as int),
                                t.reading(i),
                            );
                        }
                    }
                }
                high = middle;
            }
        }
        proof {
            raw::lemma_before_irreflexive(needle@);
        }
        (0, 0)
    }

    /// The single kanji that the image lists for `reading`, in its order.
    pub fn single_kanji(&self, reading: &str) -> (chars: Vec<char>)
        requires
            self@.valid(),
        ensures
            chars@ == (match self@.single_kanji {
                None => Seq::empty(),
                Some(t) => t.chars_for(encode_utf8(reading@)),
            }),
    {
        proof {
            reveal(image::ImageView::valid);
        }
        let (start, end) = self.single_kanji_span(reading);
        let mut chars: Vec<char> = Vec::new();
        let Some(table) = self.single_kanji else {
            return chars;
        };
        let ghost t = table.view();
        let ghost needle = encode_utf8(reading@);
        proof {
            if let Some(i) = t.find(needle) {
                model::lemma_index_records(t, 0, i);
            }
        }
        let mut at: usize = start;
        while at < end
            invariant
                t == table.view(),
                t.shaped(),
                image::single_kanji_error(t) is None,
                start <= at <= end <= t.char_count,
                chars@ == Seq::new(
                    (at - start) as nat,
                    |k: int| (t.scalar(start + k) as u32) as char,
                ),
            decreases end - at,
        {
            assert(table.chars.len() == table.chars@.len());
            assert(strings::is_scalar_value(t.scalar(at as int)));
            match raw::read_u32(table.chars, at * image_format::SINGLE_KANJI_CHAR_LEN) {
                Some(value) => match strings::char_from_u32(value) {
                    Some(c) => {
                        proof {
                            char_u32_cast(c, value);
                        }
                        chars.push(c);
                    },
                    None => {},
                },
                None => {},
            }
            at = at + 1;
            assert(chars@ =~= Seq::new(
                (at - start) as nat,
                |k: int| (t.scalar(start + k) as u32) as char,
            ));
        }
        assert(chars@ =~= t.chars_for(needle));
        chars
    }

    /// How many single kanji `reading` names.
    pub fn single_kanji_count(&self, reading: &str) -> (n: usize)
        requires
            self@.valid(),
        ensures
            n == (match self@.single_kanji {
                None => 0,
                Some(t) => t.chars_for(encode_utf8(reading@)).len(),
            }),
    {
        proof {
            reveal(image::ImageView::valid);
        }
        let (start, end) = self.single_kanji_span(reading);
        end - start
    }

    /// The variant relation recorded for `kanji`, if there is one.
    pub fn single_kanji_variant(&self, kanji: char) -> (r: Option<SingleKanjiVariant>)
        requires
            self@.valid(),
        ensures
            match self@.single_kanji {
                None => r is None,
                Some(t) => match t.find_variant(kanji as int) {
                    None => r is None,
                    Some(i) => r matches Some(variant) && variant.original as u32 == t.original(i)
                        && Some(variant.kind) == t.kind(i),
                },
            },
    {
        proof {
            reveal(image::ImageView::valid);
        }
        let Some(table) = self.single_kanji else {
            return None;
        };
        let ghost t = table.view();
        let needle: u32 = kanji as u32;
        let v: &[u8] = table.variants;
        let mut low: usize = 0;
        let mut high: usize = table.variant_count;
        while low < high
            invariant
                t == table.view(),
                t.shaped(),
                v@ == t.variants,
                image::single_kanji_error(t) is None,
                self@.single_kanji == Some(t),
                needle == kanji as int,
                low <= high <= table.variant_count,
                forall|i: int| 0 <= i < low ==> (#[trigger] t.variant(i)) < needle,
                forall|i: int| high <= i < t.variant_count ==> (#[trigger] t.variant(i)) > needle,
            decreases high - low,
        {
            let middle: usize = low + (high - low) / 2;
            assert(v.len() == v@.len());
            let at: usize = middle * image_format::SINGLE_KANJI_VARIANT_LEN;
            assert(t.variant_ok(middle as int));
            proof {
                assert forall|i: int, j: int| 0 <= i < j < t.variant_count implies (
                #[trigger] t.variant(i)) < #[trigger] t.variant(j) by {
                    model::lemma_variants_ascend(t, i, j);
                }
            }
            let (Some(variant), Some(original)) = (
                raw::read_u32(v, at),
                raw::read_u32(v, at + 4),
            ) else {
                return None;
            };
            assert(variant == t.variant(middle as int));
            if variant < needle {
                low = middle + 1;
            } else if variant > needle {
                high = middle;
            } else {
                let (Some(original), Some(kind)) = (
                    strings::char_from_u32(original),
                    SingleKanjiVariantKind::from_code(v[at + 8]),
                ) else {
                    return None;
                };
                return Some(SingleKanjiVariant { original, kind });
            }
        }
        None
    }

    /// The length of the connection table.
    pub fn matrix_bytes_len(&self) -> (n: usize)
        ensures
            n == self@.matrix.len(),
    {
        self.matrix.len()
    }

    /// The cost of a word that starts with the class `next_left_id` behind one
    /// that ends with the class `previous_right_id`.
    pub fn connection_cost(&self, previous_right_id: u16, next_left_id: u16) -> (r: Option<u16>)
        requires
            self@.valid(),
        ensures
            r is Some <==> previous_right_id < self@.class_count && next_left_id
                < self@.class_count,
            r matches Some(cost) ==> cost == self@.connection(
                previous_right_id as int,
                next_left_id as int,
            ),
    {
        proof {
            reveal(image::ImageView::valid);
        }
        let row: usize = previous_right_id as usize;
        let column: usize = next_left_id as usize;
        if row >= self.class_count || column >= self.class_count {
            return None;
        }
        let ghost m = self@.matrix;
        let ghost classes = self@.class_count;
        assert(image::matrix_row_ok(m, classes, row as int));
        assert(self.matrix.len() == self.matrix@.len());
        let modes_end: usize = image_format::MATRIX_HEADER_LEN + 2 * self.class_count;
        let rows_at: usize = (modes_end + 3) / 4 * 4;
        let rows_end: usize = rows_at + image_format::MATRIX_ROW_LEN * self.class_count;
        let descriptor: usize = rows_at + image_format::MATRIX_ROW_LEN * row;
        let (Some(mode), Some(start), Some(count)) = (
            raw::read_u16(self.matrix, image_format::MATRIX_HEADER_LEN + 2 * row),
            raw::read_u32(self.matrix, descriptor),
            raw::read_u32(self.matrix, descriptor + 4),
        ) else {
            return None;
        };
        let first: usize = start as usize;
        let mut low: usize = 0;
        let mut high: usize = count as usize;
        while low < high
            invariant
                m == self@.matrix,
                classes == self@.class_count,
                1 <= classes <= 0xffff,
                row < classes,
                column == next_left_id,
                row == previous_right_id,
                column < classes,
                image::matrix_row_ok(m, classes, row as int),
                m.len() == image::matrix_rows_end(classes) + 4 * raw::le32(m, 8),
                m.len() <= usize::MAX,
                rows_end == image::matrix_rows_end(classes),
                first == image::matrix_start(m, classes, row as int),
                first + count == image::matrix_end(m, classes, row as int),
                low <= high <= count,
                forall|k: int|
                    first <= k < first + low ==> (#[trigger] image::matrix_left(m, classes, k))
                        < column,
                forall|k: int|
                    first + high <= k < first + count ==> (#[trigger] image::matrix_left(
                        m,
                        classes,
                        k,
                    )) > column,
            decreases high - low,
        {
            let middle: usize = low + (high - low) / 2;
            let at: usize = rows_end + image_format::MATRIX_OVERRIDE_LEN * (first + middle);
            let (Some(left), Some(cost)) = (
                raw::read_u16(self.matrix, at),
                raw::read_u16(self.matrix, at + 2),
            ) else {
                return None;
            };
            let left: usize = left as usize;
            assert(left == image::matrix_left(m, classes, first + middle));
            if left < column {
                low = middle + 1;
            } else if left > column {
                high = middle;
            } else {
                return Some(cost);
            }
        }
        Some(mode)
    }

    /// The child of a node with the label `wanted`.
    pub(super) fn find_child(&self, node: &Node, Ghost(index): Ghost<int>, wanted: char) -> (r: Option<usize>)
        requires
            self@.valid(),
            0 <= index < self@.node_count,
            node.is(self@, index),
        ensures
            match self@.child(index, wanted) {
                None => r is None,
                Some(k) => r matches Some(child) && child == k && k < self@.node_count,
            },
    {
        let ghost v = self@;
        proof {
            reveal(image::ImageView::valid);
            assert(v.node_ok(index));
        }
        let mut low: usize = node.first_child;
        let end: usize = node.first_child + node.child_count;
        let mut high: usize = end;
        while low < high
            invariant
                v == self@,
                v.valid(),
                0 <= index < v.node_count,
                v.node_ok(index),
                node.is(v, index),
                end == node.first_child + node.child_count,
                node.first_child <= low <= high <= end,
                forall|k: int|
                    node.first_child <= k < low ==> (#[trigger] v.label_value(k)) < wanted as u32,
                forall|k: int|
                    high <= k < end ==> (#[trigger] v.label_value(k)) > wanted as u32,
            decreases high - low,
        {
            let middle: usize = low + (high - low) / 2;
            let label = self.valid_label(middle);
            let (value, target): (u32, u32) = (label as u32, wanted as u32);
            if value < target {
                low = middle + 1;
            } else if value > target {
                high = middle;
            } else {
                assert(v.is_child(index, wanted, middle as int));
                return Some(middle);
            }
        }
        None
    }

    /// Every entry whose reading is a prefix of `reading`, shorter readings
    /// first.
    pub fn common_prefix_search(&self, reading: &str) -> (r: Result<Vec<PrefixMatch>, Error>)
        requires
            self@.valid(),
        ensures
            r matches Ok(matches) && matches@ == self@.prefix_matches(
                reading@,
                reading@.len() as int,
            ),
    {
        let ghost v = self@;
        proof {
            image::lemma_valid_shaped(v);
        }
        let chars = strings::chars_of(reading);
        let total: usize = reading.as_bytes().len();
        let mut matches: Vec<PrefixMatch> = Vec::new();
        let mut node_index: usize = 0;
        let mut matched_bytes: usize = 0;
        let mut n: usize = 0;
        assert(reading@.take(0) =~= Seq::<char>::empty());
        while n < chars.len()
            invariant
                v == self@,
                v.valid(),
                chars@ == reading@,
                total == strings::utf8_len(reading@),
                n <= chars@.len(),
                node_index < v.node_count,
                v.node_for(reading@.take(n as int)) == Some(node_index as int),
                matched_bytes == strings::utf8_len(reading@.take(n as int)),
                matches@ == v.prefix_matches(reading@, n as int),
            decreases chars@.len() - n,
        {
            let label: char = chars[n];
            let node = self.valid_node(node_index);
            let ghost longer = reading@.take(n + 1);
            proof {
                assert(longer.drop_last() =~= reading@.take(n as int));
                assert(longer =~= reading@.take(n as int).push(label));
                strings::lemma_len_push(reading@.take(n as int), label);
                strings::lemma_encode_concat(longer, reading@.skip(n + 1));
                assert(longer + reading@.skip(n + 1) =~= reading@);
            }
            let Some(child) = self.find_child(&node, Ghost(node_index as int), label) else {
                proof {
                    lemma_no_longer_match(v, reading@, n + 1, reading@.len() as int);
                }
                return Ok(matches);
            };
            node_index = child;
            matched_bytes = matched_bytes + strings::utf8_width(label);
            let terminal = self.valid_node(node_index);
            let ghost before = matches@;
            let ghost found = v.node_matches(node_index as int, matched_bytes as nat);
            let mut i: usize = 0;
            while i < terminal.value_count
                invariant
                    v == self@,
                    v.valid(),
                    node_index < v.node_count,
                    v.node_ok(node_index as int),
                    v.entry_count <= usize::MAX,
                    terminal.is(v, node_index as int),
                    found == v.node_matches(node_index as int, matched_bytes as nat),
                    i <= terminal.value_count,
                    matches@ == before + found.take(i as int),
                decreases terminal.value_count - i,
            {
                let entry_index: usize = terminal.value_start + i;
                let entry = self.valid_entry(entry_index);
                matches.push(PrefixMatch { matched_bytes, entry_index, entry });
                assert(found.take(i + 1) =~= found.take(i as int).push(found[i as int]));
                i = i + 1;
            }
            assert(found.take(i as int) =~= found);
            n = n + 1;
        }
        Ok(matches)
    }
}

/// Once no node is left, no longer prefix has a match.
proof fn lemma_no_longer_match(v: image::ImageView, reading: Seq<char>, n: int, m: int)
    requires
        1 <= n <= m <= reading.len(),
        v.node_for(reading.take(n)) is None,
    ensures
        v.prefix_matches(reading, m) == v.prefix_matches(reading, n - 1),
        v.node_for(reading.take(m)) is None,
    decreases m - n,
{
    if n < m {
        lemma_no_longer_match(v, reading, n, m - 1);
        assert(reading.take(m).drop_last() =~= reading.take(m - 1));
    }
    assert(v.prefix_matches(reading, m) =~= v.prefix_matches(reading, n - 1));
}

/// The characters of an index record that has no fault.
fn single_kanji_chars(table: &SingleKanji<'_>, record: usize) -> (r: (usize, usize))
    requires
        table.view().shaped(),
        record < table.index_count,
        image::single_kanji_record_error(table.view(), record as int) is None,
    ensures
        r.0 == table.view().char_start(record as int),
        r.1 == table.view().char_end(record as int),
{
    assert(table.index.len() == table.index@.len());
    let at: usize = record * image_format::SINGLE_KANJI_INDEX_LEN;
    match (raw::read_u32(table.index, at + 4), raw::read_u16(table.index, at + 10)) {
        (Some(start), Some(count)) => (start as usize, start as usize + count as usize),
        _ => (0, 0),
    }
}

impl<'a> Dictionary<'a> {
    /// Reconstructs an entry's front-coded surface into `sink`.
    pub fn write_surface<S: TextSink>(&self, entry: Entry, sink: &mut S) -> (r: Result<(), Error>)
        requires
            self@.valid(),
        ensures
            (*final(sink)).limit() == (*old(sink)).limit(),
            match self@.surface(entry.surface_id as int) {
                Ok(surface) => if text::fits((*old(sink)).limit(), (*old(sink)).text() + surface) {
                    r is Ok && (*final(sink)).text() == (*old(sink)).text() + surface
                } else {
                    r == Err::<(), Error>(Error::TextOverflow) && (*final(sink)).text() == (*old(sink)).text()
                },
                Err(e) => r == Err::<(), Error>(e) && (*final(sink)).text() == (*old(sink)).text(),
            },
    {
        let ghost v = self@;
        proof {
            image::lemma_valid_shaped(v);
        }
        let surface_id: usize = entry.surface_id as usize;
        if surface_id >= self.surface_count {
            return Err(Error::BadEntry);
        }
        let interval: usize = image_format::SURFACE_RESTART_INTERVAL;
        let restart: usize = surface_id - surface_id % interval;
        let mut value: FixedStr<MAX_PREEDIT_BYTES> = FixedStr::new();
        assert(encode_utf8(value@) =~= Seq::<u8>::empty());
        let mut cursor: usize = 0;
        if self.version == ImageVersion::V2 {
            match raw::read_offset(self.surface_offsets, restart / interval) {
                Some(offset) => {
                    cursor = offset;
                },
                None => {
                    return Err(Error::BadTable(image_format::TAG_SURFACE_OFFSETS));
                },
            }
        }
        let mut index: usize = restart;
        while index <= surface_id
            invariant
                v == self@,
                (*sink).limit() == (*old(sink)).limit(),
                (*sink).text() == (*old(sink)).text(),
                surface_id == entry.surface_id,
                surface_id < v.surface_count <= 0xffff_ffff,
                restart == surface_id - surface_id % image_format::SURFACE_RESTART_INTERVAL,
                restart <= index <= surface_id + 1,
                value.wf(),
                v.v2 ==> v.surface_before(restart as int, index as int) == Ok::<
                    (Seq<u8>, int),
                    Error,
                >((encode_utf8(value@), cursor as int)),
                !v.v2 ==> (v.surface_before(restart as int, index as int) matches Ok(state)
                    && state.0 == encode_utf8(value@)),
            decreases surface_id + 1 - index,
        {
            proof {
                if v.surface_before(restart as int, index + 1) is Err {
                    lemma_surface_fails(
                        v,
                        restart as int,
                        index + 1,
                        surface_id + 1,
                    );
                }
            }
            let record: &[u8] = match self.version {
                ImageVersion::V1 => match text_record(
                    self.surface_offsets,
                    self.surface_count,
                    self.surfaces,
                    index,
                ) {
                    Ok(record) => record,
                    Err(e) => {
                        return Err(e);
                    },
                },
                ImageVersion::V2 => match packed_record(self.surfaces, cursor) {
                    Some(record) => {
                        assert(self.surfaces.len() == self.surfaces@.len());
                        cursor = cursor + record.len();
                        record
                    },
                    None => {
                        return Err(Error::BadTable(image_format::TAG_SURFACES));
                    },
                },
            };
            match apply_record(&mut value, record, index == restart) {
                Ok(()) => {},
                Err(e) => {
                    return Err(e);
                },
            }
            index = index + 1;
        }
        proof {
            encode_utf8_decode_utf8(value@);
        }
        match sink.push_str(value.as_str()) {
            Ok(()) => Ok(()),
            Err(_) => Err(Error::TextOverflow),
        }
    }

    /// Writes the annotation of `entry`; an entry without one writes nothing.
    pub fn write_annotation<S: TextSink>(&self, entry: Entry, sink: &mut S) -> (r: Result<
        (),
        Error,
    >)
        requires
            self@.valid(),
        ensures
            (*final(sink)).limit() == (*old(sink)).limit(),
            match self@.annotation(entry.annotation_locator) {
                Ok(annotation) => if self@.annotation_id(entry.annotation_locator) is None
                    || text::fits((*old(sink)).limit(), (*old(sink)).text() + annotation) {
                    r is Ok && (*final(sink)).text() == (*old(sink)).text() + annotation
                } else {
                    r == Err::<(), Error>(Error::TextOverflow) && (*final(sink)).text() == (*old(sink)).text()
                },
                Err(e) => r == Err::<(), Error>(e) && (*final(sink)).text() == (*old(sink)).text(),
            },
    {
        let found: Option<usize> = match self.version {
            ImageVersion::V1 => if entry.annotation_locator == image_format::NO_ANNOTATION {
                None
            } else {
                Some(entry.annotation_locator as usize)
            },
            ImageVersion::V2 => self.indexed_annotation(entry.annotation_locator),
        };
        let Some(annotation_id) = found else {
            assert((*old(sink)).text() + Seq::<char>::empty() =~= (*old(sink)).text());
            return Ok(());
        };
        let record = match text_record(
            self.annotation_offsets,
            self.annotation_count,
            self.annotations,
            annotation_id,
        ) {
            Ok(record) => record,
            Err(e) => {
                return Err(e);
            },
        };
        let Some(annotation) = strings::text_from_utf8(record) else {
            return Err(Error::BadUtf8);
        };
        match sink.push_str(annotation) {
            Ok(()) => Ok(()),
            Err(_) => Err(Error::TextOverflow),
        }
    }

    /// The annotation of an entry ordinal in the annotation index.
    fn indexed_annotation(&self, wanted: u32) -> (r: Option<usize>)
        requires
            self@.valid(),
            self@.v2,
        ensures
            match self@.annotation_id(wanted) {
                None => r is None,
                Some(id) => r matches Some(found) && found == id,
            },
    {
        proof {
            reveal(image::ImageView::valid);
        }
        let ghost v = self@;
        let Some(index) = self.annotation_index else {
            return None;
        };
        let mut low: usize = 0;
        let mut high: usize = self.annotation_index_count;
        while low < high
            invariant
                v == self@,
                v.shaped(),
                v.v2,
                v.annotation_index_ok(),
                v.annotation_index == Some(index@),
                low <= high <= self.annotation_index_count,
                forall|i: int| 0 <= i < low ==> (#[trigger] v.indexed_entry(i)) < wanted,
                forall|i: int|
                    high <= i < v.annotation_index_count ==> (#[trigger] v.indexed_entry(i))
                        > wanted,
            decreases high - low,
        {
            let middle: usize = low + (high - low) / 2;
            assert(index.len() == index@.len());
            let at: usize = middle * image_format::ANNOTATION_INDEX_LEN_V2;
            let (Some(ordinal), Some(annotation)) = (
                raw::read_u32(index, at),
                raw::read_u32(index, at + 4),
            ) else {
                return None;
            };
            assert(ordinal == v.indexed_entry(middle as int));
            if ordinal < wanted {
                low = middle + 1;
            } else if ordinal > wanted {
                high = middle;
            } else {
                assert(annotation == v.indexed_annotation(middle as int));
                return Some(annotation as usize);
            }
        }
        None
    }
}

/// A fault in one surface is a fault of every later one of its block.
proof fn lemma_surface_fails(v: image::ImageView, restart: int, n: int, m: int)
    requires
        restart <= n <= m,
        v.surface_before(restart, n) is Err,
    ensures
        v.surface_before(restart, m) == v.surface_before(restart, n),
    decreases m - n,
{
    if n < m {
        lemma_surface_fails(v, restart, n, m - 1);
    }
}

} // verus!
