//! Reviewed details of entries.
//!
//! [`Dictionary::detail_at`] resolves one entry ordinal through the sorted
//! detail index; [`DictionaryDetail`] reads its description and its relations.

use super::image;
use super::image_format;
use super::model;
use super::raw;
use super::{DetailRelationKind, Dictionary, DictionaryDetail, Error};
use crate::text;
use crate::text::TextSink;
use crate::values::FixedStr;
use vstd::prelude::*;
#[allow(unused_imports)]
use vstd::utf8::*;

verus! {

impl image::DetailsView {
    /// Whether the tables have no fault for some number of entries.
    pub open spec fn checked(self) -> bool {
        &&& self.shaped()
        &&& image::offsets_ok(self.text_offsets, self.text_count, self.text)
        &&& self.records_error(0) is None
        &&& self.relations_error(0) is None
    }

    /// The index record of an entry.
    pub open spec fn find(self, entry: int) -> Option<int> {
        if exists|i: int| 0 <= i < self.index_count && #[trigger] self.indexed_entry(i) == entry {
            Some(
                choose|i: int|
                    0 <= i < self.index_count && #[trigger] self.indexed_entry(i) == entry,
            )
        } else {
            None
        }
    }

    /// Text `i`.
    pub open spec fn text_at(self, i: int) -> Seq<char> {
        decode_utf8(self.text_bytes(i)->0)
    }
}

/// Records without a fault have none in any of them.
proof fn lemma_record(v: image::DetailsView, from: int, i: int)
    requires
        v.records_error(from) is None,
        0 <= from <= i < v.record_count,
    ensures
        v.record_fault(i) is None,
    decreases i - from,
{
    if from < i {
        lemma_record(v, from + 1, i);
    }
}

/// Relations without a fault have none in any of them.
proof fn lemma_relation(v: image::DetailsView, from: int, i: int)
    requires
        v.relations_error(from) is None,
        0 <= from <= i < v.relation_count,
    ensures
        v.relation_fault(i) is None,
    decreases i - from,
{
    if from < i {
        lemma_relation(v, from + 1, i);
    }
}

impl<'a> Dictionary<'a> {
    /// The details of one entry ordinal. An image without details has none for
    /// any entry.
    pub fn detail_at(&self, entry_index: usize) -> (r: Result<Option<DictionaryDetail<'a>>, Error>)
        requires
            self@.valid(),
        ensures
            match self@.details {
                None => r matches Ok(d) && d is None,
                Some(details) => if entry_index >= self@.entry_count {
                    r matches Err(e) && e == Error::BadEntry
                } else {
                    match details.find(entry_index as int) {
                        None => r matches Ok(d) && d is None,
                        Some(i) => r matches Ok(Some(d)) && d.valid() && d.tables() == details
                            && d.record() == details.indexed_record(i),
                    }
                },
            },
    {
        proof {
            reveal(image::ImageView::valid);
        }
        let Some(details) = self.details else {
            return Ok(None);
        };
        let ghost v = details.view();
        if entry_index >= self.entry_count {
            return Err(Error::BadEntry);
        }
        let mut low: usize = 0;
        let mut high: usize = details.index_count;
        while low < high
            invariant
                v == details.view(),
                v.checked(),
                v.index_ok(self@.entry_count),
                self@.details == Some(v),
                entry_index < self@.entry_count,
                low <= high <= details.index_count,
                forall|i: int| 0 <= i < low ==> (#[trigger] v.indexed_entry(i)) < entry_index,
                forall|i: int|
                    high <= i < v.index_count ==> (#[trigger] v.indexed_entry(i)) > entry_index,
            decreases high - low,
        {
            let middle: usize = low + (high - low) / 2;
            let bad = Error::BadTable(image_format::TAG_DETAIL_INDEX);
            assert(details.index.len() == details.index@.len());
            let at: usize = middle * image_format::DETAIL_INDEX_LEN;
            let (Some(indexed), Some(record)) = (
                raw::read_u32(details.index, at),
                raw::read_u32(details.index, at + 4),
            ) else {
                return Err(bad);
            };
            let (indexed, record_index): (usize, usize) = (indexed as usize, record as usize);
            assert(indexed == v.indexed_entry(middle as int));
            assert(record_index == v.indexed_record(middle as int));
            if indexed < entry_index {
                low = middle + 1;
            } else if indexed > entry_index {
                high = middle;
            } else {
                return Ok(Some(DictionaryDetail { details, record_index }));
            }
        }
        Ok(None)
    }
}

impl<'a> DictionaryDetail<'a> {
    /// The tables that the details are read from.
    pub closed spec fn tables(&self) -> image::DetailsView {
        self.details.view()
    }

    /// The record of the details.
    pub closed spec fn record(&self) -> int {
        self.record_index as int
    }

    /// Whether the tables have no fault and the record exists.
    pub open spec fn valid(&self) -> bool {
        self.tables().checked() && 0 <= self.record() < self.tables().record_count
    }

    /// The complete description.
    pub open spec fn description_text(&self) -> Seq<char> {
        self.tables().text_at(self.tables().description(self.record()))
    }

    /// The text to show.
    pub open spec fn display_text(&self) -> Seq<char> {
        self.tables().text_at(self.tables().display(self.record()))
    }

    /// Writes the complete description.
    pub fn write_description<S: TextSink>(&self, sink: &mut S) -> (r: Result<(), Error>)
        requires
            self.valid(),
        ensures
            (*final(sink)).limit() == (*old(sink)).limit(),
            if text::fits((*old(sink)).limit(), (*old(sink)).text() + self.description_text()) {
                r is Ok && (*final(sink)).text() == (*old(sink)).text() + self.description_text()
            } else {
                r == Err::<(), Error>(Error::TextOverflow) && (*final(sink)).text() == (*old(
                    sink,
                )).text()
            },
    {
        self.write_text(0, sink)
    }

    /// Writes the complete text to show.
    pub fn write_display_description<S: TextSink>(&self, sink: &mut S) -> (r: Result<(), Error>)
        requires
            self.valid(),
        ensures
            (*final(sink)).limit() == (*old(sink)).limit(),
            if text::fits((*old(sink)).limit(), (*old(sink)).text() + self.display_text()) {
                r is Ok && (*final(sink)).text() == (*old(sink)).text() + self.display_text()
            } else {
                r == Err::<(), Error>(Error::TextOverflow) && (*final(sink)).text() == (*old(
                    sink,
                )).text()
            },
    {
        self.write_text(4, sink)
    }

    /// Copies as much of the description as fits into `maximum_bytes` and into
    /// the sink, without splitting a character, and reports whether text
    /// remains.
    pub fn write_description_preview<const N: usize>(
        &self,
        sink: &mut FixedStr<N>,
        maximum_bytes: usize,
    ) -> (r: Result<bool, Error>)
        requires
            self.valid(),
            old(sink).wf(),
        ensures
            final(sink).wf(),
            r is Ok,
            ({
                let bytes = encode_utf8(self.description_text());
                let end = model::preview_end(
                    bytes,
                    model::preview_limit(
                        bytes.len() as int,
                        maximum_bytes as int,
                        N - encode_utf8(old(sink)@).len(),
                    ),
                );
                &&& is_char_boundary(bytes, end)
                &&& final(sink)@ == old(sink)@ + decode_utf8(bytes.take(end))
                &&& r == Ok::<bool, Error>(end != bytes.len())
            }),
    {
        let text = match self.description() {
            Ok(text) => text,
            Err(e) => {
                return Err(e);
            },
        };
        let total: usize = text.as_bytes().len();
        let remaining: usize = N - sink.len();
        let mut end: usize = total;
        if maximum_bytes < end {
            end = maximum_bytes;
        }
        if remaining < end {
            end = remaining;
        }
        let ghost bytes = encode_utf8(text@);
        let ghost limit = model::preview_limit(total as int, maximum_bytes as int, remaining as int);
        proof {
            encode_utf8_valid_utf8(text@);
            is_char_boundary_start_end_of_seq(bytes);
        }
        while end != 0 && !text.is_char_boundary(end)
            invariant
                bytes == encode_utf8(text@),
                end <= limit <= bytes.len(),
                model::preview_end(bytes, limit) == model::preview_end(bytes, end as int),
            decreases end,
        {
            end = end - 1;
        }
        let (head, _) = text.split_at(end);
        proof {
            assert(bytes.subrange(0, end as int) =~= bytes.take(end as int));
            encode_utf8_decode_utf8(head@);
            crate::strings::lemma_encode_concat(sink@, head@);
        }
        match sink.push_str(head) {
            Ok(()) => Ok(end != total),
            Err(_) => Err(Error::TextOverflow),
        }
    }

    /// The relations in the order of the image: how each points, and the word
    /// it points at.
    pub fn visit_relations(&self) -> (r: Result<Vec<(DetailRelationKind, &'a str)>, Error>)
        requires
            self.valid(),
        ensures
            ({
                let v = self.tables();
                let start = v.relation_start(self.record());
                &&& r matches Ok(relations)
                &&& relations@.len() == v.relation_end(self.record()) - start
                &&& forall|i: int|
                    0 <= i < relations@.len() ==> Some((#[trigger] relations@[i]).0)
                        == v.relation_kind(start + i) && relations@[i].1@ == v.text_at(
                        v.relation_text(start + i),
                    )
            }),
    {
        let ghost v = self.details.view();
        let bad = Error::BadTable(image_format::TAG_DETAIL_RECORDS);
        assert(self.details.records.len() == self.details.records@.len());
        let at: usize = self.record_index * image_format::DETAIL_RECORD_LEN;
        proof {
            lemma_record(v, 0, self.record());
        }
        let (Some(start), Some(count)) = (
            raw::read_u32(self.details.records, at + 8),
            raw::read_u32(self.details.records, at + 12),
        ) else {
            return Err(bad);
        };
        let (start, count): (usize, usize) = (start as usize, count as usize);
        let mut relations: Vec<(DetailRelationKind, &'a str)> = Vec::new();
        let mut index: usize = 0;
        while index < count
            invariant
                v == self.details.view(),
                v.checked(),
                start == v.relation_start(self.record()),
                start + count == v.relation_end(self.record()),
                start + count <= v.relation_count,
                index <= count,
                relations@.len() == index,
                forall|i: int|
                    0 <= i < relations@.len() ==> Some((#[trigger] relations@[i]).0)
                        == v.relation_kind(start + i) && relations@[i].1@ == v.text_at(
                        v.relation_text(start + i),
                    ),
            decreases count - index,
        {
            let bad = Error::BadTable(image_format::TAG_DETAIL_RELATIONS);
            proof {
                lemma_relation(v, 0, start + index);
            }
            let b: &'a [u8] = self.details.relations;
            assert(b.len() == b@.len());
            let relation_at: usize = (start + index) * image_format::DETAIL_RELATION_LEN;
            let (Some(kind), Some(text_id)) = (
                DetailRelationKind::from_byte(b[relation_at]),
                raw::read_u32(b, relation_at + 4),
            ) else {
                return Err(bad);
            };
            let text = match self.details.located_text(text_id as usize) {
                Ok(text) => text,
                Err(e) => {
                    return Err(e);
                },
            };
            relations.push((kind, text));
            index = index + 1;
        }
        Ok(relations)
    }

    /// Writes the text that a field of the record names.
    fn write_text<S: TextSink>(&self, field_offset: usize, sink: &mut S) -> (r: Result<(), Error>)
        requires
            self.valid(),
            field_offset == 0 || field_offset == 4,
        ensures
            (*final(sink)).limit() == (*old(sink)).limit(),
            ({
                let shown = if field_offset == 0 {
                    self.description_text()
                } else {
                    self.display_text()
                };
                if text::fits((*old(sink)).limit(), (*old(sink)).text() + shown) {
                    r is Ok && (*final(sink)).text() == (*old(sink)).text() + shown
                } else {
                    r == Err::<(), Error>(Error::TextOverflow) && (*final(sink)).text() == (*old(
                        sink,
                    )).text()
                }
            }),
    {
        let text = match self.field_text(field_offset) {
            Ok(text) => text,
            Err(e) => {
                return Err(e);
            },
        };
        match sink.push_str(text) {
            Ok(()) => Ok(()),
            Err(_) => Err(Error::TextOverflow),
        }
    }

    /// The complete description.
    fn description(&self) -> (r: Result<&'a str, Error>)
        requires
            self.valid(),
        ensures
            r matches Ok(text) && text@ == self.description_text(),
    {
        self.field_text(0)
    }

    /// The text that a field of the record names.
    fn field_text(&self, field_offset: usize) -> (r: Result<&'a str, Error>)
        requires
            self.valid(),
            field_offset == 0 || field_offset == 4,
        ensures
            r matches Ok(text) && text@ == (if field_offset == 0 {
                self.description_text()
            } else {
                self.display_text()
            }),
    {
        let ghost v = self.details.view();
        assert(self.details.records.len() == self.details.records@.len());
        let at: usize = self.record_index * image_format::DETAIL_RECORD_LEN;
        proof {
            lemma_record(v, 0, self.record());
        }
        let Some(text_id) = raw::read_u32(self.details.records, at + field_offset) else {
            return Err(Error::BadTable(image_format::TAG_DETAIL_RECORDS));
        };
        self.details.located_text(text_id as usize)
    }
}

} // verus!
