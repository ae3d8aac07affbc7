//! Tables and texts of an image: what was written into it is what is read out of it.

use super::image;
use super::image::{DetailsView, ImageView, SingleKanjiView, TableView};
use super::layout_laws;
use super::layout_laws::{four_bytes, stands, two_bytes};
use super::model;
use super::raw;
use super::{DetailRelationKind, DictionaryDetail, SingleKanjiVariantKind};
use vstd::prelude::*;
#[allow(unused_imports)]
use vstd::utf8::*;

verus! {

// ---------------------------------------------------------------------------
// The header and the directory.

/// The header of an image names its classes, its entries and its nodes.
pub proof fn headers_read_back(b: Seq<u8>, classes: int, entries: int, nodes: int)
    requires
        0 <= classes < 65536,
        0 <= entries < 0x1_0000_0000,
        0 <= nodes < 0x1_0000_0000,
        stands(b, 14, two_bytes(classes) + (four_bytes(entries) + four_bytes(nodes))),
    ensures
        image::image_view(b).class_count == classes,
        image::image_view(b).entry_count == entries,
        image::image_view(b).node_count == nodes,
{
    layout_laws::lemma_parts(b, 14, two_bytes(classes), four_bytes(entries) + four_bytes(nodes));
    layout_laws::lemma_parts(b, 16, four_bytes(entries), four_bytes(nodes));
    layout_laws::lemma_two(b, 14, classes);
    layout_laws::lemma_four(b, 16, entries);
    layout_laws::lemma_four(b, 20, nodes);
}

/// An entry of the directory: a tag of four bytes, where the table starts and how long it
/// is, and how many records it has.
pub open spec fn directory_record(tag: [u8; 4], start: int, length: int, count: int) -> Seq<u8> {
    tag@ + (four_bytes(start) + (four_bytes(length) + four_bytes(count)))
}

/// Whether entry `i` of the directory of an image names a table.
pub open spec fn table_named(
    b: Seq<u8>,
    i: int,
    tag: [u8; 4],
    start: int,
    length: int,
    count: int,
) -> bool {
    &&& 0 <= i < b[12] + 256 * b[13]
    &&& 0 <= start < 0x1_0000_0000
    &&& 0 <= length < 0x1_0000_0000
    &&& 0 <= count < 0x1_0000_0000
    &&& stands(b, 32 + 16 * i, directory_record(tag, start, length, count))
}

proof fn lemma_directory_record(
    b: Seq<u8>,
    i: int,
    tag: [u8; 4],
    start: int,
    length: int,
    count: int,
)
    requires
        table_named(b, i, tag, start, length, count),
    ensures
        image::table_tag(b, i) == tag,
        image::table_start(b, i) == start,
        image::table_end(b, i) == start + length,
        image::table_view(b, i).count == count,
        image::table_view(b, i).bytes == b.subrange(start, start + length),
{
    let at = 32 + 16 * i;
    let (p, q, r) = (four_bytes(start), four_bytes(length), four_bytes(count));
    layout_laws::lemma_parts(b, at, tag@, p + (q + r));
    layout_laws::lemma_parts(b, at + 4, p, q + r);
    layout_laws::lemma_parts(b, at + 8, q, r);
    layout_laws::lemma_four(b, at + 4, start);
    layout_laws::lemma_four(b, at + 8, length);
    layout_laws::lemma_four(b, at + 12, count);
    assert(b[at + 0] == tag@[0]);
    assert(b[at + 1] == tag@[1]);
    assert(b[at + 2] == tag@[2]);
    assert(b[at + 3] == tag@[3]);
    assert(image::table_tag(b, i)@ =~= tag@);
    assert(image::table_tag(b, i) =~= tag);
}

proof fn lemma_find_table(b: Seq<u8>, from: int, i: int)
    requires
        0 <= from <= i < image::table_count(b),
        forall|j: int| from <= j < i ==> (#[trigger] image::table_tag(b, j)) != image::table_tag(b, i),
    ensures
        image::find_table(b, image::table_tag(b, i), from) == Some(image::table_view(b, i)),
    decreases i - from,
{
    if from < i {
        lemma_find_table(b, from + 1, i);
    }
}

/// A table of an image is found by its tag: the bytes that its entry of the directory
/// names, with their number of records.
pub proof fn tables_are_found_by_their_tags(
    b: Seq<u8>,
    i: int,
    tag: [u8; 4],
    start: int,
    length: int,
    count: int,
)
    requires
        image::image_error(b) is None,
        table_named(b, i, tag, start, length, count),
    ensures
        image::table(b, tag) == Some(
            TableView { bytes: b.subrange(start, start + length), count },
        ),
{
    lemma_directory_record(b, i, tag, start, length, count);
    assert forall|j: int| 0 <= j < i implies (#[trigger] image::table_tag(b, j))
        != image::table_tag(b, i) by {
        super::laws::tables_are_distinct_and_disjoint(b, j, i);
    }
    lemma_find_table(b, 0, i);
}

/// The tables of an image are those with the tags for them.
pub proof fn tables_are_what_their_tags_say(
    b: Seq<u8>,
    i: int,
    tag: [u8; 4],
    start: int,
    length: int,
    count: int,
)
    requires
        image::image_error(b) is None,
        table_named(b, i, tag, start, length, count),
        0 <= start,
        start + length <= b.len(),
    ensures
        ({
            let v = image::image_view(b);
            let bytes = b.subrange(start, start + length);
            // NODE, ENTR, SURF, SOFF, ANNO, AOFF and MATR.
            &&& tag@ == seq![0x4eu8, 0x4f, 0x44, 0x45] ==> v.nodes == bytes
            &&& tag@ == seq![0x45u8, 0x4e, 0x54, 0x52] ==> v.entries == bytes
            &&& tag@ == seq![0x53u8, 0x55, 0x52, 0x46] ==> v.surfaces == bytes
            &&& tag@ == seq![0x53u8, 0x4f, 0x46, 0x46] ==> v.surface_offsets == bytes
            &&& tag@ == seq![0x41u8, 0x4e, 0x4e, 0x4f] ==> v.annotations == bytes
            &&& tag@ == seq![0x41u8, 0x4f, 0x46, 0x46] ==> v.annotation_offsets == bytes
                && v.annotation_count == count
            &&& tag@ == seq![0x4du8, 0x41, 0x54, 0x52] ==> v.matrix == bytes
            // LABL in the first version, and AIDX in the second.
            &&& tag@ == seq![0x4cu8, 0x41, 0x42, 0x4c] && !v.v2 ==> v.labels == bytes
            &&& tag@ == seq![0x41u8, 0x49, 0x44, 0x58] && v.v2 ==> v.annotation_index == Some(bytes)
                && v.annotation_index_count == count
            // BNDR, behind a header of eight bytes.
            &&& tag@ == seq![0x42u8, 0x4e, 0x44, 0x52] ==> v.boundaries == Some(bytes.skip(8))
        }),
{
    tables_are_found_by_their_tags(b, i, tag, start, length, count);
    lemma_tag(tag, super::image_format::TAG_NODES);
    lemma_tag(tag, super::image_format::TAG_ENTRIES);
    lemma_tag(tag, super::image_format::TAG_SURFACES);
    lemma_tag(tag, super::image_format::TAG_SURFACE_OFFSETS);
    lemma_tag(tag, super::image_format::TAG_ANNOTATIONS);
    lemma_tag(tag, super::image_format::TAG_ANNOTATION_OFFSETS);
    lemma_tag(tag, super::image_format::TAG_MATRIX);
    lemma_tag(tag, super::image_format::TAG_LABELS);
    lemma_tag(tag, super::image_format::TAG_ANNOTATION_INDEX);
    lemma_tag(tag, super::image_format::TAG_BOUNDARIES);
}

proof fn lemma_tag(a: [u8; 4], b: [u8; 4])
    ensures
        a == b <==> a@ =~= b@,
{
    if a@ =~= b@ {
        assert(a =~= b);
    }
}

// ---------------------------------------------------------------------------
// Surfaces.

/// A record of a surface: how much of the surface before it stays, how much is its own,
/// and its own bytes.
pub open spec fn surface_record(kept: int, own: Seq<u8>) -> Seq<u8> {
    two_bytes(kept) + (two_bytes(own.len() as int) + own)
}

/// Where the record of a surface starts in the second version: every sixteenth has an
/// offset, and the others follow the one before.
pub open spec fn packed_at(v: ImageView, id: int) -> int
    decreases id,
{
    if id <= 0 || id % 16 == 0 {
        raw::le32(v.surface_offsets, 4 * (id / 16))
    } else {
        let before = packed_at(v, id - 1);
        before + 4 + (v.surfaces[before + 2] + 256 * v.surfaces[before + 3])
    }
}

/// Whether the record of a surface stands in an image.
pub open spec fn surface_stands(v: ImageView, id: int, kept: int, own: Seq<u8>) -> bool {
    &&& 0 <= kept < 65536
    &&& own.len() < 65536
    &&& if v.v2 {
        stands(v.surfaces, packed_at(v, id), surface_record(kept, own))
    } else {
        let start = raw::le32(v.surface_offsets, 4 * id);
        let end = if id + 1 < v.surface_count {
            raw::le32(v.surface_offsets, 4 * (id + 1))
        } else {
            v.surfaces.len() as int
        };
        0 <= start <= end <= v.surfaces.len() && v.surfaces.subrange(start, end) == surface_record(
            kept,
            own,
        )
    }
}

/// What was decoded so far is UTF-8.
proof fn lemma_surface_utf8(v: ImageView, restart: int, index: int)
    requires
        v.surface_before(restart, index) is Ok,
    ensures
        valid_utf8(v.surface_before(restart, index)->Ok_0.0),
    decreases index - restart,
{
    if index > restart {
        lemma_surface_utf8(v, restart, index - 1);
        let (value, cursor) = v.surface_before(restart, index - 1)->Ok_0;
        let record = v.surface_record(cursor, index - 1)->Some_0;
        let prefix = raw::le16(record, 0);
        valid_utf8_split(value, prefix);
        assert(value.take(prefix) =~= value.subrange(0, prefix));
        valid_utf8_concat(value.take(prefix), record.skip(4));
    }
}

/// Where the record of a surface is read in the second version.
proof fn lemma_cursor(v: ImageView, restart: int, index: int)
    requires
        v.v2,
        0 <= restart <= index <= restart + 15,
        restart % 16 == 0,
        v.surface_before(restart, index) is Ok,
    ensures
        v.surface_before(restart, index)->Ok_0.1 == packed_at(v, index),
        packed_at(v, index) >= 0,
    decreases index - restart,
{
    if index > restart {
        lemma_cursor(v, restart, index - 1);
        let (value, cursor) = v.surface_before(restart, index - 1)->Ok_0;
        assert(index % 16 != 0);
        let record = v.surface_record(cursor, index - 1)->Some_0;
        assert(record.len() == 4 + raw::le16(v.surfaces, cursor + 2));
    }
}

proof fn lemma_record_parts(record: Seq<u8>, kept: int, own: Seq<u8>)
    requires
        record == surface_record(kept, own),
        0 <= kept < 65536,
        own.len() < 65536,
    ensures
        raw::le16(record, 0) == kept,
        raw::le16(record, 2) == own.len(),
        record.skip(4) == own,
        record.len() == 4 + own.len(),
{
    assert(stands(record, 0, surface_record(kept, own)));
    layout_laws::lemma_parts(record, 0, two_bytes(kept), two_bytes(own.len() as int) + own);
    layout_laws::lemma_parts(record, 2, two_bytes(own.len() as int), own);
    layout_laws::lemma_two(record, 0, kept);
    layout_laws::lemma_two(record, 2, own.len() as int);
    assert(record.skip(4) =~= own);
}

/// A surface reads back as it was written: as much of the surface before it as its record
/// keeps, and then its own bytes. Every sixteenth surface keeps nothing.
pub proof fn surfaces_read_back(
    v: ImageView,
    id: int,
    kept: int,
    own: Seq<u8>,
    before: Seq<char>,
)
    requires
        0 <= id < v.surface_count,
        surface_stands(v, id, kept, own),
        v.surface(id) is Ok,
        id % 16 != 0 ==> v.surface(id - 1) == Ok::<Seq<char>, super::Error>(before),
    ensures
        id % 16 == 0 ==> encode_utf8(v.surface(id)->Ok_0) == own && kept == 0,
        id % 16 != 0 ==> kept <= encode_utf8(before).len() && encode_utf8(v.surface(id)->Ok_0)
            == encode_utf8(before).take(kept) + own,
{
    let restart = id - id % 16;
    assert(v.surface_before(restart, id + 1) is Ok);
    assert(v.surface_before(restart, id) is Ok);
    let (value, cursor) = v.surface_before(restart, id)->Ok_0;
    let record = v.surface_record(cursor, id)->Some_0;
    if v.v2 {
        lemma_cursor(v, restart, id);
        assert(cursor == packed_at(v, id));
        let whole = surface_record(kept, own);
        layout_laws::lemma_parts(v.surfaces, cursor, two_bytes(kept), two_bytes(own.len() as int) + own);
        layout_laws::lemma_parts(v.surfaces, cursor + 2, two_bytes(own.len() as int), own);
        layout_laws::lemma_two(v.surfaces, cursor + 2, own.len() as int);
        assert(record.len() == whole.len());
        assert(record =~= whole) by {
            assert forall|k: int| 0 <= k < whole.len() implies record[k] == whole[k] by {
                assert(v.surfaces[cursor + k] == whole[k]);
            }
        }
    }
    lemma_record_parts(record, kept, own);
    lemma_surface_utf8(v, restart, id + 1);
    lemma_surface_utf8(v, restart, id);
    let after = v.surface_before(restart, id + 1)->Ok_0.0;
    assert(after == value.take(kept) + own);
    decode_utf8_encode_utf8(after);
    decode_utf8_encode_utf8(value);
    if id % 16 == 0 {
        assert(value =~= Seq::<u8>::empty());
        assert(after =~= own);
    } else {
        assert((id - 1) - (id - 1) % 16 == restart);
        assert(before == decode_utf8(value));
    }
}

// ---------------------------------------------------------------------------
// Annotations.

/// Whether text `i` of a table with offsets is `bytes`.
pub open spec fn text_stands(
    offsets: Seq<u8>,
    count: int,
    data: Seq<u8>,
    i: int,
    bytes: Seq<u8>,
) -> bool {
    let start = raw::le32(offsets, 4 * i);
    let end = if i + 1 < count {
        raw::le32(offsets, 4 * (i + 1))
    } else {
        data.len() as int
    };
    &&& 0 <= i < count
    &&& 4 * count <= offsets.len()
    &&& 0 <= start <= end <= data.len()
    &&& data.subrange(start, end) == bytes
}

/// The annotation of an entry of the first version is the text with the number that stands
/// in the entry.
pub proof fn annotations_read_back(v: ImageView, locator: u32, text: Seq<char>)
    requires
        !v.v2,
        locator != 0xffff_ffff,
        text_stands(
            v.annotation_offsets,
            v.annotation_count,
            v.annotations,
            locator as int,
            encode_utf8(text),
        ),
    ensures
        v.annotation(locator) == Ok::<Seq<char>, super::Error>(text),
        v.annotation(0xffff_ffff) == Ok::<Seq<char>, super::Error>(Seq::empty()),
{
    encode_utf8_valid_utf8(text);
    encode_utf8_decode_utf8(text);
}

/// The annotation of an entry of the second version is the text that stands with the
/// number of the entry in the index; an entry that is not in the index has none.
pub proof fn indexed_annotations_read_back(
    v: ImageView,
    i: int,
    entry: u32,
    id: int,
    text: Seq<char>,
    other: u32,
)
    requires
        v.valid(),
        v.v2,
        0 <= i < v.annotation_index_count,
        0 <= id < 0x1_0000_0000,
        stands(v.annotation_index->0, 8 * i, four_bytes(entry as int) + four_bytes(id)),
        text_stands(
            v.annotation_offsets,
            v.annotation_count,
            v.annotations,
            id,
            encode_utf8(text),
        ),
    ensures
        v.annotation(entry) == Ok::<Seq<char>, super::Error>(text),
        (forall|j: int|
            0 <= j < v.annotation_index_count ==> !#[trigger] stands(
                v.annotation_index->0,
                8 * j,
                four_bytes(other as int),
            )) ==> v.annotation(other) == Ok::<Seq<char>, super::Error>(Seq::empty()),
{
    reveal(ImageView::valid);
    let index = v.annotation_index->0;
    layout_laws::lemma_parts(index, 8 * i, four_bytes(entry as int), four_bytes(id));
    layout_laws::lemma_four(index, 8 * i, entry as int);
    layout_laws::lemma_four(index, 8 * i + 4, id);
    assert(v.indexed_entry(i) == entry);
    assert(v.indexed_annotation(i) == id);
    lemma_annotation_index(v);
    let found = v.find_annotation(entry as int)->Some_0;
    assert(v.indexed_entry(found) == entry);
    if found < i {
        assert(v.indexed_entry(found) < v.indexed_entry(i));
    } else if i < found {
        assert(v.indexed_entry(i) < v.indexed_entry(found));
    }
    encode_utf8_valid_utf8(text);
    encode_utf8_decode_utf8(text);
    if v.find_annotation(other as int) is Some {
        let j = v.find_annotation(other as int)->Some_0;
        assert(v.indexed_entry(j) == other);
        lemma_four_back(index, 8 * j, other as int);
    }
}

proof fn lemma_annotation_index(v: ImageView)
    requires
        v.valid(),
        v.v2,
    ensures
        v.annotation_index_ok(),
        v.annotation_index->0.len() == 8 * v.annotation_index_count,
{
    reveal(ImageView::valid);
}

/// Four bytes that are read as a number are those of the number.
proof fn lemma_four_back(table: Seq<u8>, at: int, n: int)
    requires
        0 <= at,
        at + 4 <= table.len(),
        raw::le32(table, at) == n,
    ensures
        stands(table, at, four_bytes(n)),
{
    let low = table[at] + 0x100 * table[at + 1];
    let high = table[at + 2] + 0x100 * table[at + 3];
    assert(n == low + 65536 * high);
    assert(n % 65536 == low);
    assert(n / 65536 == high);
    layout_laws::lemma_two_back(table, at, low);
    layout_laws::lemma_two_back(table, at + 2, high);
    let (x, y) = (two_bytes(low), two_bytes(high));
    let whole = four_bytes(n);
    assert(table[at + 0] == x[0] && table[at + 1] == x[1]);
    assert(table[at + 2 + 0] == y[0] && table[at + 2 + 1] == y[1]);
    assert(whole[0] == x[0] && whole[1] == x[1] && whole[2] == y[0] && whole[3] == y[1]);
}

// ---------------------------------------------------------------------------
// Single kanji.

/// A record of the index of single kanji: where its reading starts and where its
/// characters do, and the lengths of both.
pub open spec fn kanji_record(reading: int, first: int, length: int, count: int) -> Seq<u8> {
    four_bytes(reading) + (four_bytes(first) + (two_bytes(length) + two_bytes(count)))
}

proof fn lemma_scalar(c: char)
    ensures
        0 <= c as int <= 0x10_ffff,
{
}

/// The single kanji of a reading are the characters that stand in the record with the
/// reading, in their order.
pub proof fn single_kanji_read_back(
    t: SingleKanjiView,
    i: int,
    start: int,
    first: int,
    reading: Seq<u8>,
    kanji: Seq<char>,
)
    requires
        image::single_kanji_error(t) is None,
        0 <= i < t.index_count,
        0 <= start < 0x1_0000_0000,
        0 <= first < 0x1_0000_0000,
        reading.len() < 65536,
        kanji.len() < 65536,
        stands(
            t.index,
            12 * i,
            kanji_record(start, first, reading.len() as int, kanji.len() as int),
        ),
        stands(t.readings, start, reading),
        forall|k: int|
            0 <= k < kanji.len() ==> stands(
                t.chars,
                4 * (first + k),
                four_bytes(#[trigger] kanji[k] as int),
            ),
    ensures
        t.chars_for(reading) == kanji,
{
    let at = 12 * i;
    let (p, q) = (four_bytes(start), four_bytes(first));
    let (r, c) = (two_bytes(reading.len() as int), two_bytes(kanji.len() as int));
    layout_laws::lemma_parts(t.index, at, p, q + (r + c));
    layout_laws::lemma_parts(t.index, at + 4, q, r + c);
    layout_laws::lemma_parts(t.index, at + 8, r, c);
    layout_laws::lemma_four(t.index, at, start);
    layout_laws::lemma_four(t.index, at + 4, first);
    layout_laws::lemma_two(t.index, at + 8, reading.len() as int);
    layout_laws::lemma_two(t.index, at + 10, kanji.len() as int);
    assert(t.reading(i) =~= reading) by {
        assert forall|k: int| 0 <= k < reading.len() implies t.reading(i)[k] == reading[k] by {
            assert(t.readings[start + k] == reading[k]);
        }
    }
    assert(t.find(reading) is Some);
    let found = t.find(reading)->Some_0;
    assert(t.reading(found) == reading);
    raw::lemma_before_irreflexive(reading);
    if found < i {
        model::lemma_readings_ascend(t, found, i);
    } else if i < found {
        model::lemma_readings_ascend(t, i, found);
    }
    assert(t.chars_for(reading) =~= kanji) by {
        assert forall|k: int| 0 <= k < kanji.len() implies t.chars_for(reading)[k] == kanji[k] by {
            lemma_scalar(kanji[k]);
            layout_laws::lemma_four(t.chars, 4 * (first + k), kanji[k] as int);
            super::walk_laws::lemma_label(kanji[k], t.scalar(first + k));
        }
    }
}

/// The variant that is recorded of a character is the one that stands with it.
pub proof fn single_kanji_variants_read_back(
    t: SingleKanjiView,
    i: int,
    c: char,
    original: char,
    kind: SingleKanjiVariantKind,
)
    requires
        image::single_kanji_error(t) is None,
        0 <= i < t.variant_count,
        stands(t.variants, 12 * i, four_bytes(c as int) + (four_bytes(original as int) + seq![kind.code_of()])),
    ensures
        t.find_variant(c as int) matches Some(k) && t.original(k) == original as int && t.kind(k)
            == Some(kind),
{
    let at = 12 * i;
    let (p, q, r) = (four_bytes(c as int), four_bytes(original as int), seq![kind.code_of()]);
    layout_laws::lemma_parts(t.variants, at, p, q + r);
    layout_laws::lemma_parts(t.variants, at + 4, q, r);
    layout_laws::lemma_four(t.variants, at, c as int);
    layout_laws::lemma_four(t.variants, at + 4, original as int);
    assert(t.variants[at + 8 + 0] == r[0]);
    super::laws::variant_codes_round_trip(kind, kind.code_of());
    assert(t.variant(i) == c as int);
    let found = t.find_variant(c as int)->Some_0;
    assert(t.variant(found) == c as int);
    if found < i {
        model::lemma_variants_ascend(t, found, i);
    } else if i < found {
        model::lemma_variants_ascend(t, i, found);
    }
}

// ---------------------------------------------------------------------------
// Details.

/// The details of an entry are those that stand with it in the index.
pub proof fn detail_records_read_back(d: DetailsView, entries: int, i: int, entry: int, record: int)
    requires
        d.index_ok(entries),
        0 <= i < d.index_count,
        0 <= entry < 0x1_0000_0000,
        0 <= record < 0x1_0000_0000,
        stands(d.index, 8 * i, four_bytes(entry) + four_bytes(record)),
    ensures
        d.find(entry) matches Some(k) && d.indexed_record(k) == record,
{
    layout_laws::lemma_parts(d.index, 8 * i, four_bytes(entry), four_bytes(record));
    layout_laws::lemma_four(d.index, 8 * i, entry);
    layout_laws::lemma_four(d.index, 8 * i + 4, record);
    assert(d.indexed_entry(i) == entry);
    let found = d.find(entry)->Some_0;
    assert(d.indexed_entry(found) == entry);
    if found < i {
        assert(d.indexed_entry(found) < d.indexed_entry(i));
    } else if i < found {
        assert(d.indexed_entry(i) < d.indexed_entry(found));
    }
}

/// A record of details names its description, the text to show, and its relations.
pub proof fn details_read_back(
    d: DetailsView,
    record: int,
    description: int,
    display: int,
    first: int,
    count: int,
)
    requires
        0 <= record,
        0 <= description < 0x1_0000_0000,
        0 <= display < 0x1_0000_0000,
        0 <= first < 0x1_0000_0000,
        0 <= count < 0x1_0000_0000,
        stands(
            d.records,
            16 * record,
            four_bytes(description) + (four_bytes(display) + (four_bytes(first) + four_bytes(count))),
        ),
    ensures
        d.description(record) == description,
        d.display(record) == display,
        d.relation_start(record) == first,
        d.relation_end(record) == first + count,
{
    let at = 16 * record;
    let (a, b, c, e) = (
        four_bytes(description),
        four_bytes(display),
        four_bytes(first),
        four_bytes(count),
    );
    layout_laws::lemma_parts(d.records, at, a, b + (c + e));
    layout_laws::lemma_parts(d.records, at + 4, b, c + e);
    layout_laws::lemma_parts(d.records, at + 8, c, e);
    layout_laws::lemma_four(d.records, at, description);
    layout_laws::lemma_four(d.records, at + 4, display);
    layout_laws::lemma_four(d.records, at + 8, first);
    layout_laws::lemma_four(d.records, at + 12, count);
}

/// The byte for a kind of relation: one for an alias, two for a related word, three for a
/// synonym and four for an antonym.
pub open spec fn relation_byte(kind: DetailRelationKind) -> u8 {
    match kind {
        DetailRelationKind::Alias => 1,
        DetailRelationKind::Related => 2,
        DetailRelationKind::Synonym => 3,
        DetailRelationKind::Antonym => 4,
    }
}

/// A relation names its kind and the text of the word that it points at.
pub proof fn relations_read_back(d: DetailsView, i: int, kind: DetailRelationKind, text: int)
    requires
        0 <= i,
        0 <= text < 0x1_0000_0000,
        stands(
            d.relations,
            8 * i,
            seq![relation_byte(kind), 0u8, 0u8, 0u8] + four_bytes(text),
        ),
    ensures
        d.relation_kind(i) == Some(kind),
        d.relation_text(i) == text,
{
    let at = 8 * i;
    let head = seq![relation_byte(kind), 0u8, 0u8, 0u8];
    layout_laws::lemma_parts(d.relations, at, head, four_bytes(text));
    layout_laws::lemma_four(d.relations, at + 4, text);
    assert(d.relations[at + 0] == head[0]);
}

/// A text of the details reads back as it was written.
pub proof fn detail_texts_read_back(d: DetailsView, i: int, text: Seq<char>)
    requires
        text_stands(d.text_offsets, d.text_count, d.text, i, encode_utf8(text)),
    ensures
        d.text_at(i) == text,
{
    encode_utf8_valid_utf8(text);
    encode_utf8_decode_utf8(text);
}

/// A preview is bounded by the text, by what was asked for and by the room that is left: by
/// the least of the three.
pub proof fn previews_keep_within_every_bound(total: int, maximum: int, remaining: int)
    ensures
        ({
            let limit = model::preview_limit(total, maximum, remaining);
            &&& limit <= total
            &&& limit <= maximum
            &&& limit <= remaining
            &&& limit == total || limit == maximum || limit == remaining
        }),
{
}

/// The details of an entry write the text that their record names first as the description,
/// and the one that it names second as the text to show.
pub proof fn details_write_what_their_record_names(
    detail: DictionaryDetail,
    description: int,
    display: int,
    first: int,
    count: int,
)
    requires
        detail.valid(),
        0 <= description < 0x1_0000_0000,
        0 <= display < 0x1_0000_0000,
        0 <= first < 0x1_0000_0000,
        0 <= count < 0x1_0000_0000,
        stands(
            detail.tables().records,
            16 * detail.record(),
            four_bytes(description) + (four_bytes(display) + (four_bytes(first) + four_bytes(count))),
        ),
    ensures
        detail.description_text() == detail.tables().text_at(description),
        detail.display_text() == detail.tables().text_at(display),
{
    details_read_back(detail.tables(), detail.record(), description, display, first, count);
}

} // verus!
