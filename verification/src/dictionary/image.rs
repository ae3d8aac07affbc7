//! What a dictionary image is: the statement that parsing is held to.
//!
//! [`image_error`] names the first fault of a byte string, in the order in which
//! an image is read, and [`image_view`] gives the tables of one without a fault.

use super::image_format;
use super::raw;
use super::{DetailRelationKind, Entry, EntryFlags, Error, SingleKanjiVariantKind};
use crate::strings;
use crate::values;
use vstd::prelude::*;
#[allow(unused_imports)]
use vstd::utf8::*;

verus! {

/// The first of two faults.
pub open spec fn first(a: Option<Error>, b: Option<Error>) -> Option<Error> {
    if a is Some {
        a
    } else {
        b
    }
}

/// The fault `e` unless `ok`.
pub open spec fn unless(ok: bool, e: Error) -> Option<Error> {
    if ok {
        None
    } else {
        Some(e)
    }
}

/// The contents of one table.
pub struct TableView {
    pub bytes: Seq<u8>,
    pub count: int,
}

/// The tables of reviewed details.
pub struct DetailsView {
    pub index: Seq<u8>,
    pub index_count: int,
    pub records: Seq<u8>,
    pub record_count: int,
    pub relations: Seq<u8>,
    pub relation_count: int,
    pub text_offsets: Seq<u8>,
    pub text_count: int,
    pub text: Seq<u8>,
}

/// The tables of single kanji.
pub struct SingleKanjiView {
    pub index: Seq<u8>,
    pub index_count: int,
    pub readings: Seq<u8>,
    pub chars: Seq<u8>,
    pub char_count: int,
    pub variants: Seq<u8>,
    pub variant_count: int,
}

/// The tables of an image.
pub struct ImageView {
    pub v2: bool,
    pub class_count: int,
    pub entry_count: int,
    pub node_count: int,
    pub louds: Seq<u8>,
    pub louds_bits: int,
    pub nodes: Seq<u8>,
    pub labels: Seq<u8>,
    pub entries: Seq<u8>,
    pub surface_offsets: Seq<u8>,
    pub surface_count: int,
    pub surfaces: Seq<u8>,
    pub annotation_offsets: Seq<u8>,
    pub annotation_count: int,
    pub annotations: Seq<u8>,
    pub annotation_index: Option<Seq<u8>>,
    pub annotation_index_count: int,
    pub matrix: Seq<u8>,
    pub boundaries: Option<Seq<u8>>,
    pub details: Option<DetailsView>,
    pub single_kanji: Option<SingleKanjiView>,
}

// ---------------------------------------------------------------------------
// Header and directory.

/// The fault of the header, if it has one.
pub open spec fn header_error(b: Seq<u8>) -> Option<Error> {
    if b.len() < image_format::HEADER_LEN {
        Some(Error::Truncated)
    } else if b.take(8) != image_format::MAGIC@ {
        Some(Error::BadMagic)
    } else if raw::le16(b, 8) != image_format::VERSION && raw::le16(b, 8)
        != image_format::VERSION_V2 {
        Some(Error::UnsupportedVersion(raw::le16(b, 8) as u16))
    } else if raw::le16(b, 10) != image_format::HEADER_LEN || raw::le16(b, 12) == 0 || raw::le16(
        b,
        12,
    ) > image_format::MAX_TABLES || raw::le16(b, 14) == 0 || raw::le32(b, 20) == 0 || raw::le32(
        b,
        24,
    ) != b.len() || raw::le32(b, 28) != 0 {
        Some(Error::BadHeader)
    } else {
        unless(directory_end(b) <= b.len(), Error::Truncated)
    }
}

/// Whether the header names the second version.
pub open spec fn is_v2(b: Seq<u8>) -> bool {
    raw::le16(b, 8) == image_format::VERSION_V2
}

/// How many tables the directory names.
pub open spec fn table_count(b: Seq<u8>) -> int {
    raw::le16(b, 12)
}

/// Where the directory ends.
pub open spec fn directory_end(b: Seq<u8>) -> int {
    image_format::HEADER_LEN + image_format::DIRECTORY_ENTRY_LEN * table_count(b)
}

/// Where the directory entry of table `i` stands.
pub open spec fn slot(i: int) -> int {
    image_format::HEADER_LEN + image_format::DIRECTORY_ENTRY_LEN * i
}

/// The tag of table `i`.
pub open spec fn table_tag(b: Seq<u8>, i: int) -> [u8; 4] {
    raw::tag_at(b, slot(i))
}

/// Where table `i` starts.
pub open spec fn table_start(b: Seq<u8>, i: int) -> int {
    raw::le32(b, slot(i) + 4)
}

/// Where table `i` ends.
pub open spec fn table_end(b: Seq<u8>, i: int) -> int {
    table_start(b, i) + raw::le32(b, slot(i) + 8)
}

/// Table `i`.
pub open spec fn table_view(b: Seq<u8>, i: int) -> TableView {
    TableView {
        bytes: b.subrange(table_start(b, i), table_end(b, i)),
        count: raw::le32(b, slot(i) + 12),
    }
}

/// Whether table `i` lies behind the directory, on a multiple of eight, and
/// inside the image.
pub open spec fn table_placed(b: Seq<u8>, i: int) -> bool {
    &&& table_end(b, i) <= b.len()
    &&& table_start(b, i) >= directory_end(b)
    &&& table_start(b, i) % 8 == 0
}

/// The fault of two tables taken together, if they have one: the same tag
/// twice, or an overlap.
pub open spec fn pair_error(b: Seq<u8>, i: int, j: int) -> Option<Error> {
    if table_end(b, j) > b.len() {
        Some(Error::BadDirectory)
    } else if table_tag(b, i) == table_tag(b, j) {
        Some(Error::DuplicateTable(table_tag(b, i)))
    } else {
        unless(
            table_start(b, i) >= table_end(b, j) || table_start(b, j) >= table_end(b, i),
            Error::BadDirectory,
        )
    }
}

/// The first fault of table `i` against the tables from `j` on.
pub open spec fn pairs_error(b: Seq<u8>, i: int, j: int) -> Option<Error>
    decreases table_count(b) - j,
{
    if j >= table_count(b) {
        None
    } else {
        first(pair_error(b, i, j), pairs_error(b, i, j + 1))
    }
}

/// The first fault of the directory from table `i` on.
pub open spec fn directory_error(b: Seq<u8>, i: int) -> Option<Error>
    decreases table_count(b) - i,
{
    if i >= table_count(b) {
        None
    } else {
        first(
            unless(table_placed(b, i), Error::BadDirectory),
            first(pairs_error(b, i, i + 1), directory_error(b, i + 1)),
        )
    }
}

/// The first table from `i` on that has the given tag.
pub open spec fn find_table(b: Seq<u8>, tag: [u8; 4], i: int) -> Option<TableView>
    decreases table_count(b) - i,
{
    if i >= table_count(b) {
        None
    } else if table_tag(b, i) == tag {
        Some(table_view(b, i))
    } else {
        find_table(b, tag, i + 1)
    }
}

/// The table with the given tag.
pub open spec fn table(b: Seq<u8>, tag: [u8; 4]) -> Option<TableView> {
    find_table(b, tag, 0)
}

/// The fault of an image without the table.
pub open spec fn required(b: Seq<u8>, tag: [u8; 4]) -> Option<Error> {
    unless(table(b, tag) is Some, Error::MissingTable(tag))
}

/// The fault of an image with a table that its version does not have.
pub open spec fn forbidden(b: Seq<u8>, tag: [u8; 4]) -> Option<Error> {
    unless(table(b, tag) is None, Error::BadTable(tag))
}

/// The fault of an image in which a table that must stand there does not, or
/// one that must not does.
pub open spec fn core_tables_error(b: Seq<u8>) -> Option<Error> {
    first(
        required(b, image_format::TAG_LOUDS),
        first(
            required(b, image_format::TAG_NODES),
            first(
                if is_v2(b) {
                    forbidden(b, image_format::TAG_LABELS)
                } else {
                    required(b, image_format::TAG_LABELS)
                },
                first(
                    required(b, image_format::TAG_ENTRIES),
                    first(
                        required(b, image_format::TAG_SURFACE_OFFSETS),
                        text_tables_error(b),
                    ),
                ),
            ),
        ),
    )
}

/// The part of [`core_tables_error`] from the surfaces on.
pub open spec fn text_tables_error(b: Seq<u8>) -> Option<Error> {
    first(
        required(b, image_format::TAG_SURFACES),
        first(
            required(b, image_format::TAG_ANNOTATION_OFFSETS),
            first(
                required(b, image_format::TAG_ANNOTATIONS),
                first(
                    if is_v2(b) {
                        required(b, image_format::TAG_ANNOTATION_INDEX)
                    } else {
                        forbidden(b, image_format::TAG_ANNOTATION_INDEX)
                    },
                    required(b, image_format::TAG_MATRIX),
                ),
            ),
        ),
    )
}

/// How many of the tables of details there are.
pub open spec fn detail_tables(b: Seq<u8>) -> int {
    present(b, image_format::TAG_DETAIL_INDEX) + present(b, image_format::TAG_DETAIL_RECORDS)
        + present(b, image_format::TAG_DETAIL_RELATIONS) + present(
        b,
        image_format::TAG_DETAIL_TEXT_OFFSETS,
    ) + present(b, image_format::TAG_DETAIL_TEXT)
}

/// How many of the tables of single kanji there are.
pub open spec fn single_kanji_tables(b: Seq<u8>) -> int {
    present(b, image_format::TAG_SINGLE_KANJI_INDEX) + present(
        b,
        image_format::TAG_SINGLE_KANJI_READINGS,
    ) + present(b, image_format::TAG_SINGLE_KANJI_CHARS) + present(
        b,
        image_format::TAG_SINGLE_KANJI_VARIANTS,
    )
}

/// One for a table that is there, zero for one that is not.
pub open spec fn present(b: Seq<u8>, tag: [u8; 4]) -> int {
    if table(b, tag) is Some {
        1
    } else {
        0
    }
}

/// The fault of the optional tables: a malformed boundary table, or a group
/// that is there only in part.
pub open spec fn optional_tables_error(b: Seq<u8>) -> Option<Error> {
    first(
        match table(b, image_format::TAG_BOUNDARIES) {
            Some(t) => unless(
                boundary_table_ok(t, raw::le16(b, 14)),
                Error::BadTable(image_format::TAG_BOUNDARIES),
            ),
            None => None,
        },
        first(
            unless(
                detail_tables(b) == 0 || detail_tables(b) == 5,
                Error::BadTable(image_format::TAG_DETAIL_INDEX),
            ),
            unless(
                single_kanji_tables(b) == 0 || single_kanji_tables(b) == 4,
                Error::BadTable(image_format::TAG_SINGLE_KANJI_INDEX),
            ),
        ),
    )
}

// ---------------------------------------------------------------------------
// Table shapes.

/// The fault of a table that does not hold `count` records of `stride` bytes.
pub open spec fn fixed(t: TableView, tag: [u8; 4], count: int, stride: int) -> Option<Error> {
    unless(t.count == count && t.bytes.len() == count * stride, Error::BadTable(tag))
}

/// How many restart points `count` surfaces have.
pub open spec fn restarts(count: int) -> int {
    (count + (image_format::SURFACE_RESTART_INTERVAL - 1)) / (
    image_format::SURFACE_RESTART_INTERVAL as int)
}

/// The fault in the shape of the tables that every image has.
pub open spec fn core_shape_error(b: Seq<u8>) -> Option<Error> {
    let v2 = is_v2(b);
    let nodes = table(b, image_format::TAG_NODES)->0;
    let entries = table(b, image_format::TAG_ENTRIES)->0;
    let offsets = table(b, image_format::TAG_SURFACE_OFFSETS)->0;
    first(
        fixed(nodes, image_format::TAG_NODES, raw::le32(b, 20), image_format::NODE_LEN as int),
        first(
            if v2 {
                None
            } else {
                fixed(
                    table(b, image_format::TAG_LABELS)->0,
                    image_format::TAG_LABELS,
                    raw::le32(b, 20),
                    4,
                )
            },
            first(
                fixed(entries, image_format::TAG_ENTRIES, raw::le32(b, 16), entry_len(v2)),
                first(
                    fixed(
                        offsets,
                        image_format::TAG_SURFACE_OFFSETS,
                        if v2 {
                            restarts(table(b, image_format::TAG_SURFACES)->0.count)
                        } else {
                            offsets.count
                        },
                        4,
                    ),
                    text_shape_error(b),
                ),
            ),
        ),
    )
}

/// The part of [`core_shape_error`] from the annotations on.
pub open spec fn text_shape_error(b: Seq<u8>) -> Option<Error> {
    let v2 = is_v2(b);
    let offsets = table(b, image_format::TAG_ANNOTATION_OFFSETS)->0;
    let annotations = table(b, image_format::TAG_ANNOTATIONS)->0;
    let index = table(b, image_format::TAG_ANNOTATION_INDEX)->0;
    first(
        fixed(offsets, image_format::TAG_ANNOTATION_OFFSETS, offsets.count, 4),
        first(
            unless(
                v2 ==> annotations.count == offsets.count,
                Error::BadTable(image_format::TAG_ANNOTATIONS),
            ),
            first(
                if v2 {
                    fixed(
                        index,
                        image_format::TAG_ANNOTATION_INDEX,
                        index.count,
                        image_format::ANNOTATION_INDEX_LEN_V2 as int,
                    )
                } else {
                    None
                },
                first(
                    unless(
                        matrix_table_ok(table(b, image_format::TAG_MATRIX)->0, raw::le16(b, 14)),
                        Error::BadTable(image_format::TAG_MATRIX),
                    ),
                    unless(
                        table(b, image_format::TAG_LOUDS)->0.bytes.len() >= 4,
                        Error::BadTable(image_format::TAG_LOUDS),
                    ),
                ),
            ),
        ),
    )
}

/// The size of an entry record.
pub open spec fn entry_len(v2: bool) -> int {
    if v2 {
        image_format::ENTRY_LEN_V2 as int
    } else {
        image_format::ENTRY_LEN as int
    }
}

/// The fault in the shape of the tables of details.
pub open spec fn detail_shape_error(b: Seq<u8>) -> Option<Error> {
    if detail_tables(b) == 0 {
        None
    } else {
        let index = table(b, image_format::TAG_DETAIL_INDEX)->0;
        let records = table(b, image_format::TAG_DETAIL_RECORDS)->0;
        let relations = table(b, image_format::TAG_DETAIL_RELATIONS)->0;
        let offsets = table(b, image_format::TAG_DETAIL_TEXT_OFFSETS)->0;
        first(
            fixed(
                index,
                image_format::TAG_DETAIL_INDEX,
                index.count,
                image_format::DETAIL_INDEX_LEN as int,
            ),
            first(
                fixed(
                    records,
                    image_format::TAG_DETAIL_RECORDS,
                    records.count,
                    image_format::DETAIL_RECORD_LEN as int,
                ),
                first(
                    fixed(
                        relations,
                        image_format::TAG_DETAIL_RELATIONS,
                        relations.count,
                        image_format::DETAIL_RELATION_LEN as int,
                    ),
                    fixed(offsets, image_format::TAG_DETAIL_TEXT_OFFSETS, offsets.count, 4),
                ),
            ),
        )
    }
}

/// The tables of details.
pub open spec fn details_view(b: Seq<u8>) -> Option<DetailsView> {
    if detail_tables(b) == 0 {
        None
    } else {
        let index = table(b, image_format::TAG_DETAIL_INDEX)->0;
        let records = table(b, image_format::TAG_DETAIL_RECORDS)->0;
        let relations = table(b, image_format::TAG_DETAIL_RELATIONS)->0;
        let offsets = table(b, image_format::TAG_DETAIL_TEXT_OFFSETS)->0;
        let text = table(b, image_format::TAG_DETAIL_TEXT)->0;
        Some(
            DetailsView {
                index: index.bytes,
                index_count: index.count,
                records: records.bytes,
                record_count: records.count,
                relations: relations.bytes,
                relation_count: relations.count,
                text_offsets: offsets.bytes,
                text_count: offsets.count,
                text: text.bytes,
            },
        )
    }
}

/// The fault of the tables of single kanji, in their shape or in a record.
pub open spec fn single_kanji_shape_error(b: Seq<u8>) -> Option<Error> {
    match single_kanji_view(b) {
        None => None,
        Some(sk) => {
            let index = table(b, image_format::TAG_SINGLE_KANJI_INDEX)->0;
            let readings = table(b, image_format::TAG_SINGLE_KANJI_READINGS)->0;
            let chars = table(b, image_format::TAG_SINGLE_KANJI_CHARS)->0;
            let variants = table(b, image_format::TAG_SINGLE_KANJI_VARIANTS)->0;
            first(
                fixed(
                    index,
                    image_format::TAG_SINGLE_KANJI_INDEX,
                    index.count,
                    image_format::SINGLE_KANJI_INDEX_LEN as int,
                ),
                first(
                    fixed(
                        chars,
                        image_format::TAG_SINGLE_KANJI_CHARS,
                        chars.count,
                        image_format::SINGLE_KANJI_CHAR_LEN as int,
                    ),
                    first(
                        fixed(
                            variants,
                            image_format::TAG_SINGLE_KANJI_VARIANTS,
                            variants.count,
                            image_format::SINGLE_KANJI_VARIANT_LEN as int,
                        ),
                        first(
                            unless(
                                readings.count == readings.bytes.len(),
                                Error::BadTable(image_format::TAG_SINGLE_KANJI_READINGS),
                            ),
                            single_kanji_error(sk),
                        ),
                    ),
                ),
            )
        },
    }
}

/// The tables of single kanji.
pub open spec fn single_kanji_view(b: Seq<u8>) -> Option<SingleKanjiView> {
    if single_kanji_tables(b) == 0 {
        None
    } else {
        let index = table(b, image_format::TAG_SINGLE_KANJI_INDEX)->0;
        let readings = table(b, image_format::TAG_SINGLE_KANJI_READINGS)->0;
        let chars = table(b, image_format::TAG_SINGLE_KANJI_CHARS)->0;
        let variants = table(b, image_format::TAG_SINGLE_KANJI_VARIANTS)->0;
        Some(
            SingleKanjiView {
                index: index.bytes,
                index_count: index.count,
                readings: readings.bytes,
                chars: chars.bytes,
                char_count: chars.count,
                variants: variants.bytes,
                variant_count: variants.count,
            },
        )
    }
}

/// The fault of the LOUDS table: it holds its number of bits, and then as many
/// bytes as they take.
pub open spec fn louds_shape_error(b: Seq<u8>) -> Option<Error> {
    let t = table(b, image_format::TAG_LOUDS)->0;
    let bits = raw::le32(t.bytes, 0);
    unless(
        bits + 7 <= usize::MAX && t.count == bits && t.bytes.len() == 4 + (bits + 7) / 8,
        Error::BadTable(image_format::TAG_LOUDS),
    )
}

/// The tables of an image.
pub open spec fn image_view(b: Seq<u8>) -> ImageView {
    let v2 = is_v2(b);
    let louds = table(b, image_format::TAG_LOUDS)->0;
    let surface_offsets = table(b, image_format::TAG_SURFACE_OFFSETS)->0;
    let surfaces = table(b, image_format::TAG_SURFACES)->0;
    let annotation_offsets = table(b, image_format::TAG_ANNOTATION_OFFSETS)->0;
    let annotation_index = table(b, image_format::TAG_ANNOTATION_INDEX)->0;
    ImageView {
        v2,
        class_count: raw::le16(b, 14),
        entry_count: raw::le32(b, 16),
        node_count: raw::le32(b, 20),
        louds: louds.bytes.skip(4),
        louds_bits: raw::le32(louds.bytes, 0),
        nodes: table(b, image_format::TAG_NODES)->0.bytes,
        labels: if v2 {
            Seq::empty()
        } else {
            table(b, image_format::TAG_LABELS)->0.bytes
        },
        entries: table(b, image_format::TAG_ENTRIES)->0.bytes,
        surface_offsets: surface_offsets.bytes,
        surface_count: if v2 {
            surfaces.count
        } else {
            surface_offsets.count
        },
        surfaces: surfaces.bytes,
        annotation_offsets: annotation_offsets.bytes,
        annotation_count: annotation_offsets.count,
        annotations: table(b, image_format::TAG_ANNOTATIONS)->0.bytes,
        annotation_index: if v2 {
            Some(annotation_index.bytes)
        } else {
            None
        },
        annotation_index_count: if v2 {
            annotation_index.count
        } else {
            0
        },
        matrix: table(b, image_format::TAG_MATRIX)->0.bytes,
        boundaries: match table(b, image_format::TAG_BOUNDARIES) {
            Some(t) => Some(t.bytes.skip(image_format::BOUNDARY_HEADER_LEN as int)),
            None => None,
        },
        details: details_view(b),
        single_kanji: single_kanji_view(b),
    }
}

/// The first fault of a byte string that is no image.
pub open spec fn image_error(b: Seq<u8>) -> Option<Error> {
    first(
        header_error(b),
        first(
            directory_error(b, 0),
            first(
                core_tables_error(b),
                first(
                    optional_tables_error(b),
                    first(
                        core_shape_error(b),
                        first(
                            detail_shape_error(b),
                            first(
                                single_kanji_shape_error(b),
                                first(louds_shape_error(b), image_view(b).record_error()),
                            ),
                        ),
                    ),
                ),
            ),
        ),
    )
}

// ---------------------------------------------------------------------------
// The connection matrix.

/// The next multiple of four.
pub open spec fn align4(value: int) -> int {
    (value + 3) / 4 * 4
}

/// Where the row descriptors of the matrix start.
pub open spec fn matrix_rows_at(classes: int) -> int {
    align4(image_format::MATRIX_HEADER_LEN + 2 * classes)
}

/// Where the overrides of the matrix start.
pub open spec fn matrix_rows_end(classes: int) -> int {
    matrix_rows_at(classes) + image_format::MATRIX_ROW_LEN * classes
}

/// The most frequent cost of a row.
pub open spec fn matrix_mode(m: Seq<u8>, row: int) -> int {
    raw::le16(m, image_format::MATRIX_HEADER_LEN + 2 * row)
}

/// The first override of a row.
pub open spec fn matrix_start(m: Seq<u8>, classes: int, row: int) -> int {
    raw::le32(m, matrix_rows_at(classes) + image_format::MATRIX_ROW_LEN * row)
}

/// The override behind the last one of a row.
pub open spec fn matrix_end(m: Seq<u8>, classes: int, row: int) -> int {
    matrix_start(m, classes, row) + raw::le32(
        m,
        matrix_rows_at(classes) + image_format::MATRIX_ROW_LEN * row + 4,
    )
}

/// The column of an override.
pub open spec fn matrix_left(m: Seq<u8>, classes: int, index: int) -> int {
    raw::le16(m, matrix_rows_end(classes) + image_format::MATRIX_OVERRIDE_LEN * index)
}

/// The cost of an override.
pub open spec fn matrix_cost(m: Seq<u8>, classes: int, index: int) -> int {
    raw::le16(m, matrix_rows_end(classes) + image_format::MATRIX_OVERRIDE_LEN * index + 2)
}

/// Whether the header and the length of the matrix are in order.
pub open spec fn matrix_shape_ok(t: TableView, classes: int) -> bool {
    let m = t.bytes;
    &&& t.count == classes
    &&& m.len() >= image_format::MATRIX_HEADER_LEN
    &&& m.take(4) == image_format::MATRIX_MAGIC@
    &&& raw::le16(m, 4) == classes
    &&& raw::le16(m, 6) == 0
    &&& raw::le32(m, 12) == 0
    &&& m.len() == matrix_rows_end(classes) + image_format::MATRIX_OVERRIDE_LEN * raw::le32(m, 8)
    &&& forall|k: int|
        image_format::MATRIX_HEADER_LEN + 2 * classes <= k < matrix_rows_at(classes) ==> m[k]
            == 0u8
}

/// Whether a row starts where the one before it ends, and its overrides are
/// strictly ascending columns with costs other than the row's own.
pub open spec fn matrix_row_ok(m: Seq<u8>, classes: int, row: int) -> bool {
    let start = matrix_start(m, classes, row);
    let end = matrix_end(m, classes, row);
    &&& start == (if row == 0 {
        0
    } else {
        matrix_end(m, classes, row - 1)
    })
    &&& end <= raw::le32(m, 8)
    &&& forall|k: int|
        start <= k < end ==> #[trigger] matrix_left(m, classes, k) < classes && matrix_cost(
            m,
            classes,
            k,
        ) != matrix_mode(m, row)
    &&& forall|j: int, k: int|
        start <= j < k < end ==> #[trigger] matrix_left(m, classes, j) < #[trigger] matrix_left(
            m,
            classes,
            k,
        )
}

/// Whether the connection matrix is well formed.
pub open spec fn matrix_table_ok(t: TableView, classes: int) -> bool {
    &&& matrix_shape_ok(t, classes)
    &&& forall|row: int| 0 <= row < classes ==> #[trigger] matrix_row_ok(t.bytes, classes, row)
    &&& matrix_end(t.bytes, classes, classes - 1) == raw::le32(t.bytes, 8)
}

// ---------------------------------------------------------------------------
// The boundary table.

/// The bytes of one boundary row.
pub open spec fn boundary_row_bytes(classes: int) -> int {
    (classes + 7) / 8
}

/// The bit of a pair of classes.
pub open spec fn boundary_bit(rows: Seq<u8>, classes: int, right: int, left: int) -> bool {
    raw::byte_bit(rows[right * boundary_row_bytes(classes) + left / 8], left % 8)
}

/// Whether a row has a boundary towards and from the class zero and no bit in
/// its padding.
pub open spec fn boundary_row_ok(rows: Seq<u8>, classes: int, right: int) -> bool {
    &&& boundary_bit(rows, classes, right, 0)
    &&& boundary_bit(rows, classes, 0, right)
    &&& forall|p: int|
        classes <= p < 8 * boundary_row_bytes(classes) ==> !#[trigger] boundary_bit(
            rows,
            classes,
            right,
            p,
        )
}

/// Whether the boundary table is well formed.
pub open spec fn boundary_table_ok(t: TableView, classes: int) -> bool {
    &&& t.count == classes
    &&& t.bytes.len() == image_format::BOUNDARY_HEADER_LEN + classes * boundary_row_bytes(classes)
    &&& t.bytes.take(4) == image_format::BOUNDARY_MAGIC@
    &&& raw::le16(t.bytes, 4) == classes
    &&& raw::le16(t.bytes, 6) == 0
    &&& forall|right: int|
        0 <= right < classes ==> #[trigger] boundary_row_ok(
            t.bytes.skip(image_format::BOUNDARY_HEADER_LEN as int),
            classes,
            right,
        )
}

// ---------------------------------------------------------------------------
// The single-kanji tables.

impl SingleKanjiView {
    /// Whether every table has the length that its count asks for.
    pub open spec fn shaped(self) -> bool {
        &&& 0 <= self.index_count
        &&& self.index.len() == image_format::SINGLE_KANJI_INDEX_LEN * self.index_count
        &&& 0 <= self.char_count
        &&& self.chars.len() == image_format::SINGLE_KANJI_CHAR_LEN * self.char_count
        &&& 0 <= self.variant_count
        &&& self.variants.len() == image_format::SINGLE_KANJI_VARIANT_LEN * self.variant_count
    }

    /// Where the reading of index record `i` starts.
    pub open spec fn reading_start(self, i: int) -> int {
        raw::le32(self.index, image_format::SINGLE_KANJI_INDEX_LEN * i)
    }

    /// Where the reading of index record `i` ends.
    pub open spec fn reading_end(self, i: int) -> int {
        self.reading_start(i) + raw::le16(self.index, image_format::SINGLE_KANJI_INDEX_LEN * i + 8)
    }

    /// The reading of index record `i`.
    pub open spec fn reading(self, i: int) -> Seq<u8> {
        self.readings.subrange(self.reading_start(i), self.reading_end(i))
    }

    /// The first character of index record `i`.
    pub open spec fn char_start(self, i: int) -> int {
        raw::le32(self.index, image_format::SINGLE_KANJI_INDEX_LEN * i + 4)
    }

    /// The character behind the last one of index record `i`.
    pub open spec fn char_end(self, i: int) -> int {
        self.char_start(i) + raw::le16(self.index, image_format::SINGLE_KANJI_INDEX_LEN * i + 10)
    }

    /// The scalar value of character `i`.
    pub open spec fn scalar(self, i: int) -> int {
        raw::le32(self.chars, image_format::SINGLE_KANJI_CHAR_LEN * i)
    }

    /// The character that variant record `i` is about.
    pub open spec fn variant(self, i: int) -> int {
        raw::le32(self.variants, image_format::SINGLE_KANJI_VARIANT_LEN * i)
    }

    /// The character that variant record `i` points at.
    pub open spec fn original(self, i: int) -> int {
        raw::le32(self.variants, image_format::SINGLE_KANJI_VARIANT_LEN * i + 4)
    }

    /// The kind of variant record `i`.
    pub open spec fn kind(self, i: int) -> Option<SingleKanjiVariantKind> {
        SingleKanjiVariantKind::of_code(
            self.variants[image_format::SINGLE_KANJI_VARIANT_LEN * i + 8],
        )
    }

    /// Whether variant record `i` is well formed.
    pub open spec fn variant_ok(self, i: int) -> bool {
        let at = image_format::SINGLE_KANJI_VARIANT_LEN * i;
        &&& strings::is_scalar_value(self.variant(i))
        &&& strings::is_scalar_value(self.original(i))
        &&& self.kind(i) is Some
        &&& self.variants[at + 9] == 0u8
        &&& self.variants[at + 10] == 0u8
        &&& self.variants[at + 11] == 0u8
        &&& i > 0 ==> self.variant(i - 1) < self.variant(i)
    }
}

/// The fault of index record `i`, if it has one.
pub open spec fn single_kanji_record_error(t: SingleKanjiView, i: int) -> Option<Error> {
    if t.reading_start(i) == t.reading_end(i) || t.char_start(i) == t.char_end(i) {
        Some(Error::BadTable(image_format::TAG_SINGLE_KANJI_INDEX))
    } else if t.reading_end(i) > usize::MAX {
        Some(Error::BadTable(image_format::TAG_SINGLE_KANJI_INDEX))
    } else if t.reading_end(i) > t.readings.len() || !valid_utf8(t.reading(i)) {
        Some(Error::BadTable(image_format::TAG_SINGLE_KANJI_READINGS))
    } else {
        unless(
            (i > 0 ==> raw::before(t.reading(i - 1), t.reading(i))) && t.char_end(i)
                <= t.char_count,
            Error::BadTable(image_format::TAG_SINGLE_KANJI_INDEX),
        )
    }
}

/// The first fault of the index records from `i` on.
pub open spec fn single_kanji_index_error(t: SingleKanjiView, i: int) -> Option<Error>
    decreases t.index_count - i,
{
    if i >= t.index_count {
        None
    } else {
        first(single_kanji_record_error(t, i), single_kanji_index_error(t, i + 1))
    }
}

/// The first fault of the single-kanji tables.
pub open spec fn single_kanji_error(t: SingleKanjiView) -> Option<Error> {
    first(
        unless(
            t.index_count > 0 && t.char_count > 0,
            Error::BadTable(image_format::TAG_SINGLE_KANJI_INDEX),
        ),
        first(
            single_kanji_index_error(t, 0),
            first(
                unless(
                    forall|i: int|
                        0 <= i < t.char_count ==> strings::is_scalar_value(#[trigger] t.scalar(i)),
                    Error::BadTable(image_format::TAG_SINGLE_KANJI_CHARS),
                ),
                unless(
                    forall|i: int| 0 <= i < t.variant_count ==> #[trigger] t.variant_ok(i),
                    Error::BadTable(image_format::TAG_SINGLE_KANJI_VARIANTS),
                ),
            ),
        ),
    )
}

// ---------------------------------------------------------------------------
// Offsets and text records.

/// The `i`-th offset of an offsets table.
pub open spec fn offset(offsets: Seq<u8>, i: int) -> int {
    raw::le32(offsets, 4 * i)
}

/// Whether an offsets table holds `count` strictly ascending offsets into
/// `data`.
pub open spec fn offsets_ok(offsets: Seq<u8>, count: int, data: Seq<u8>) -> bool {
    &&& 4 * count <= offsets.len()
    &&& forall|i: int| 0 <= i < count ==> #[trigger] offset(offsets, i) < data.len()
    &&& forall|i: int, j: int|
        0 <= i < j < count ==> #[trigger] offset(offsets, i) < #[trigger] offset(offsets, j)
}

/// Where record `i` ends: where the next one starts, or at the end of the data.
pub open spec fn record_end(offsets: Seq<u8>, count: int, data: Seq<u8>, i: int) -> int {
    if i + 1 < count {
        offset(offsets, i + 1)
    } else {
        data.len() as int
    }
}

/// The bytes of record `i`, or `None` where it cannot be located.
pub open spec fn text_record(offsets: Seq<u8>, count: int, data: Seq<u8>, i: int) -> Option<
    Seq<u8>,
> {
    let last = if i + 1 < count {
        i + 1
    } else {
        i
    };
    let end = record_end(offsets, count, data, i);
    if i >= count || 4 * last + 4 > offsets.len() || offset(offsets, i) > end || end
        > data.len() {
        None
    } else {
        Some(data.subrange(offset(offsets, i), end))
    }
}

// ---------------------------------------------------------------------------
// Front-coded surfaces.

/// The text after a front-coded record: the first `prefix` bytes of the text
/// before it, and then the record's own bytes.
pub open spec fn coded_value(value: Seq<u8>, record: Seq<u8>, head: bool) -> Result<
    Seq<u8>,
    Error,
> {
    let prefix = raw::le16(record, 0);
    let suffix = record.skip(4);
    if record.len() < 4 || record.len() != 4 + raw::le16(record, 2) || prefix > value.len()
        || !is_char_boundary(value, prefix) || (head && prefix != 0) {
        Err(Error::BadTable(image_format::TAG_SURFACES))
    } else if !valid_utf8(suffix) {
        Err(Error::BadUtf8)
    } else if prefix + suffix.len() > values::MAX_PREEDIT_BYTES {
        Err(Error::TextOverflow)
    } else {
        Ok(value.take(prefix) + suffix)
    }
}

/// The record at `cursor` in the surfaces of the second version.
pub open spec fn packed_record(surfaces: Seq<u8>, cursor: int) -> Option<Seq<u8>> {
    if cursor + 4 > surfaces.len() || cursor + 4 + raw::le16(surfaces, cursor + 2)
        > surfaces.len() {
        None
    } else {
        Some(surfaces.subrange(cursor, cursor + 4 + raw::le16(surfaces, cursor + 2)))
    }
}

impl ImageView {
    /// Where the block of surfaces that starts at restart point `r` ends.
    pub open spec fn block_end(self, r: int) -> int {
        if r + 1 < restarts(self.surface_count) {
            offset(self.surface_offsets, r + 1)
        } else {
            self.surfaces.len() as int
        }
    }

    /// How many surfaces the block at restart point `r` holds.
    pub open spec fn block_len(self, r: int) -> int {
        let left = self.surface_count - image_format::SURFACE_RESTART_INTERVAL * r;
        if left < image_format::SURFACE_RESTART_INTERVAL {
            left
        } else {
            image_format::SURFACE_RESTART_INTERVAL as int
        }
    }

    /// The fault of the offset of restart point `r`, if it has one.
    pub open spec fn restart_ok(self, r: int) -> bool {
        let start = offset(self.surface_offsets, r);
        &&& r == 0 ==> start == 0
        &&& start < self.block_end(r) <= self.surfaces.len()
        &&& r > 0 ==> offset(self.surface_offsets, r - 1) < start
    }

    /// The first fault of a block of which `k` records were read: the rest
    /// starts at `cursor`, and the text before it is `value`.
    pub open spec fn block_error(self, r: int, k: int, cursor: int, value: Seq<u8>) -> Option<Error>
        decreases self.block_len(r) - k,
    {
        if k >= self.block_len(r) {
            unless(cursor == self.block_end(r), Error::BadTable(image_format::TAG_SURFACES))
        } else {
            match packed_record(self.surfaces, cursor) {
                None => Some(Error::BadTable(image_format::TAG_SURFACES)),
                Some(record) => if cursor + record.len() > self.block_end(r) {
                    Some(Error::BadTable(image_format::TAG_SURFACES))
                } else {
                    match coded_value(value, record, k == 0) {
                        Err(e) => Some(e),
                        Ok(next) => self.block_error(r, k + 1, cursor + record.len(), next),
                    }
                },
            }
        }
    }

    /// The first fault of the blocks from restart point `r` on.
    pub open spec fn blocks_error(self, r: int) -> Option<Error>
        decreases restarts(self.surface_count) - r,
    {
        if r >= restarts(self.surface_count) {
            None
        } else {
            first(
                unless(self.restart_ok(r), Error::BadTable(image_format::TAG_SURFACE_OFFSETS)),
                first(
                    self.block_error(
                        r,
                        0,
                        offset(self.surface_offsets, r),
                        Seq::<u8>::empty(),
                    ),
                    self.blocks_error(r + 1),
                ),
            )
        }
    }

    /// The first fault of the surfaces.
    pub open spec fn surfaces_error(self) -> Option<Error> {
        if !self.v2 {
            unless(
                offsets_ok(self.surface_offsets, self.surface_count, self.surfaces),
                Error::BadTable(image_format::TAG_SURFACES),
            )
        } else if self.surface_count == 0 {
            unless(
                self.surface_offsets.len() == 0 && self.surfaces.len() == 0,
                Error::BadTable(image_format::TAG_SURFACES),
            )
        } else {
            self.blocks_error(0)
        }
    }

    // -----------------------------------------------------------------------
    // The trie.

    /// The scalar value of the label of node `i`.
    pub open spec fn label_value(self, i: int) -> int {
        if self.v2 {
            raw::le32(self.nodes, image_format::NODE_LEN_V2 * i + 12)
        } else {
            raw::le32(self.labels, 4 * i)
        }
    }

    /// The first child of node `i`.
    pub open spec fn first_child(self, i: int) -> int {
        raw::le32(self.nodes, image_format::NODE_LEN * i)
    }

    /// The number of children of node `i`.
    pub open spec fn child_count(self, i: int) -> int {
        raw::le16(self.nodes, image_format::NODE_LEN * i + 4)
    }

    /// The number of entries of node `i`.
    pub open spec fn value_count(self, i: int) -> int {
        raw::le16(self.nodes, image_format::NODE_LEN * i + 6)
    }

    /// The first entry of node `i`.
    pub open spec fn value_start(self, i: int) -> int {
        raw::le32(self.nodes, image_format::NODE_LEN * i + 8)
    }

    /// Whether the labels of the children of node `i` ascend strictly.
    pub open spec fn children_sorted(self, i: int) -> bool {
        forall|j: int, k: int|
            self.first_child(i) <= j < k < self.first_child(i) + self.child_count(i)
                ==> #[trigger] self.label_value(j) < #[trigger] self.label_value(k)
    }

    /// Whether the record of node `i` is well formed.
    pub open spec fn node_ok(self, i: int) -> bool {
        &&& strings::is_scalar_value(self.label_value(i))
        &&& !self.v2 ==> raw::le32(self.nodes, image_format::NODE_LEN * i + 12) == 0
        &&& self.value_start(i) + self.value_count(i) <= self.entry_count
        &&& if self.child_count(i) == 0 {
            self.first_child(i) == 0
        } else {
            &&& 0 < self.first_child(i)
            &&& self.first_child(i) + self.child_count(i) <= self.node_count
            &&& self.children_sorted(i)
        }
    }

    /// Where the bits of node `i` start: each node before it has a one for each
    /// child, and a zero.
    pub open spec fn louds_at(self, i: int) -> int
        decreases i,
    {
        if i <= 0 {
            0
        } else {
            self.louds_at(i - 1) + self.child_count(i - 1) + 1
        }
    }

    /// Whether the bits of node `i` say how many children it has.
    pub open spec fn louds_ok(self, i: int) -> bool {
        &&& forall|k: int|
            self.louds_at(i) <= k < self.louds_at(i) + self.child_count(i) ==> #[trigger] raw::bit(
                self.louds,
                k,
            )
        &&& !raw::bit(self.louds, self.louds_at(i) + self.child_count(i))
    }

    /// Whether the trie is well formed.
    pub open spec fn tree_ok(self) -> bool {
        &&& self.louds_bits == 2 * self.node_count - 1
        &&& self.label_value(0) == 0
        &&& forall|i: int| 0 <= i < self.node_count ==> #[trigger] self.node_ok(i)
        &&& forall|i: int| 0 <= i < self.node_count ==> #[trigger] self.louds_ok(i)
        &&& self.louds_at(self.node_count) == self.louds_bits
        &&& forall|p: int|
            self.louds_bits <= p < 8 * self.louds.len() ==> !#[trigger] raw::bit(self.louds, p)
    }

    // -----------------------------------------------------------------------
    // Annotations and entries.

    /// The first fault of the annotations of the second version.
    pub open spec fn annotation_text_error(self) -> Option<Error> {
        if self.annotation_count == 0 {
            unless(
                self.annotation_offsets.len() == 0 && self.annotations.len() == 0,
                Error::BadTable(image_format::TAG_ANNOTATIONS),
            )
        } else {
            first(
                unless(
                    offset(self.annotation_offsets, 0) == 0,
                    Error::BadTable(image_format::TAG_ANNOTATION_OFFSETS),
                ),
                unless(
                    forall|i: int|
                        0 <= i < self.annotation_count ==> valid_utf8(
                            (#[trigger] text_record(
                                self.annotation_offsets,
                                self.annotation_count,
                                self.annotations,
                                i,
                            ))->0,
                        ),
                    Error::BadUtf8,
                ),
            )
        }
    }

    /// The entry of annotation index record `i`.
    pub open spec fn indexed_entry(self, i: int) -> int {
        raw::le32(self.annotation_index->0, image_format::ANNOTATION_INDEX_LEN_V2 * i)
    }

    /// The annotation of annotation index record `i`.
    pub open spec fn indexed_annotation(self, i: int) -> int {
        raw::le32(self.annotation_index->0, image_format::ANNOTATION_INDEX_LEN_V2 * i + 4)
    }

    /// Whether the annotation index ascends strictly and names what exists.
    pub open spec fn annotation_index_ok(self) -> bool {
        &&& forall|i: int|
            0 <= i < self.annotation_index_count ==> (#[trigger] self.indexed_entry(i))
                < self.entry_count && self.indexed_annotation(i) < self.annotation_count
        &&& forall|i: int, j: int|
            0 <= i < j < self.annotation_index_count ==> #[trigger] self.indexed_entry(i)
                < #[trigger] self.indexed_entry(j)
    }

    /// Where the record of entry `i` stands.
    pub open spec fn entry_at(self, i: int) -> int {
        if self.v2 {
            image_format::ENTRY_LEN_V2 * i
        } else {
            image_format::ENTRY_LEN * i
        }
    }

    /// The annotation of an entry of the first version.
    pub open spec fn entry_annotation(self, i: int) -> int {
        raw::le32(self.entries, self.entry_at(i) + 20)
    }

    /// Whether the record of entry `i` is well formed.
    pub open spec fn entry_ok(self, i: int) -> bool {
        let at = self.entry_at(i);
        &&& self.v2 ==> raw::le16(self.entries, at + 14) == 0
        &&& raw::le32(self.entries, at) < self.surface_count
        &&& raw::le16(self.entries, at + 4) < self.class_count
        &&& raw::le16(self.entries, at + 6) < self.class_count
        &&& !self.v2 ==> self.entry_annotation(i) == image_format::NO_ANNOTATION
            || self.entry_annotation(i) < self.annotation_count
    }

    /// Entry `i`.
    pub open spec fn entry(self, i: int) -> Entry {
        let at = self.entry_at(i);
        Entry {
            surface_id: raw::le32(self.entries, at) as u32,
            left_id: raw::le16(self.entries, at + 4) as u16,
            right_id: raw::le16(self.entries, at + 6) as u16,
            word_cost: if self.v2 {
                raw::le16(self.entries, at + 8) as i32
            } else {
                raw::signed32(raw::le32(self.entries, at + 8)) as i32
            },
            prediction_cost: if !self.v2 {
                raw::signed32(raw::le32(self.entries, at + 12)) as i32
            } else if raw::le16(self.entries, at + 10) == 0xffff {
                i32::MAX
            } else {
                raw::le16(self.entries, at + 10) as i32
            },
            flags: EntryFlags(
                raw::le16(
                    self.entries,
                    if self.v2 {
                        at + 12
                    } else {
                        at + 16
                    },
                ) as u16,
            ),
            annotation_locator: if self.v2 {
                i as u32
            } else {
                self.entry_annotation(i) as u32
            },
        }
    }

    /// Whether every table has the length that its counts ask for.
    pub open spec fn shaped(self) -> bool {
        &&& 1 <= self.class_count <= 0xffff
        &&& 0 <= self.entry_count <= 0xffff_ffff
        &&& 1 <= self.node_count <= 0xffff_ffff
        &&& self.nodes.len() == image_format::NODE_LEN * self.node_count
        &&& !self.v2 ==> self.labels.len() == 4 * self.node_count
        &&& self.entries.len() == self.entry_at(self.entry_count)
        &&& 0 <= self.louds_bits
        &&& self.louds_bits + 7 <= usize::MAX
        &&& self.louds.len() == (self.louds_bits + 7) / 8
        &&& 0 <= self.surface_count <= 0xffff_ffff
        &&& self.surface_offsets.len() == 4 * (if self.v2 {
            restarts(self.surface_count)
        } else {
            self.surface_count
        })
        &&& 0 <= self.annotation_count <= 0xffff_ffff
        &&& self.annotation_offsets.len() == 4 * self.annotation_count
        &&& 0 <= self.annotation_index_count
        &&& self.v2 ==> self.annotation_index is Some && self.annotation_index->0.len()
            == image_format::ANNOTATION_INDEX_LEN_V2 * self.annotation_index_count
        &&& self.details matches Some(d) ==> d.shaped()
        &&& self.single_kanji matches Some(t) ==> t.shaped()
    }

    /// Whether the tables are those of an image without a fault.
    #[verifier::opaque]
    pub open spec fn valid(self) -> bool {
        &&& self.shaped()
        &&& matrix_table_ok(
            TableView { bytes: self.matrix, count: self.class_count },
            self.class_count,
        )
        &&& self.boundaries matches Some(rows) ==> rows.len() == self.class_count
            * boundary_row_bytes(self.class_count) && forall|right: int|
            0 <= right < self.class_count ==> #[trigger] boundary_row_ok(
                rows,
                self.class_count,
                right,
            )
        &&& self.single_kanji matches Some(t) ==> single_kanji_error(t) is None
        &&& self.record_error() is None
    }

    /// The first fault of the records of the tables.
    pub open spec fn record_error(self) -> Option<Error> {
        first(
            unless(self.tree_ok(), Error::BadTree),
            first(
                self.surfaces_error(),
                first(
                    match self.details {
                        Some(d) => d.details_error(self.entry_count),
                        None => None,
                    },
                    first(
                        unless(
                            offsets_ok(
                                self.annotation_offsets,
                                self.annotation_count,
                                self.annotations,
                            ),
                            Error::BadTable(image_format::TAG_ANNOTATIONS),
                        ),
                        first(
                            if self.v2 {
                                first(
                                    self.annotation_text_error(),
                                    unless(
                                        self.annotation_index_ok(),
                                        Error::BadTable(image_format::TAG_ANNOTATION_INDEX),
                                    ),
                                )
                            } else {
                                None
                            },
                            unless(
                                forall|i: int|
                                    0 <= i < self.entry_count ==> #[trigger] self.entry_ok(i),
                                Error::BadEntry,
                            ),
                        ),
                    ),
                ),
            ),
        )
    }
}

// ---------------------------------------------------------------------------
// Details.

impl DetailsView {
    /// Whether every table has the length that its count asks for.
    pub open spec fn shaped(self) -> bool {
        &&& 0 <= self.index_count
        &&& self.index.len() == image_format::DETAIL_INDEX_LEN * self.index_count
        &&& 0 <= self.record_count
        &&& self.records.len() == image_format::DETAIL_RECORD_LEN * self.record_count
        &&& 0 <= self.relation_count
        &&& self.relations.len() == image_format::DETAIL_RELATION_LEN * self.relation_count
        &&& 0 <= self.text_count
        &&& self.text_offsets.len() == 4 * self.text_count
    }

    /// The entry of index record `i`.
    pub open spec fn indexed_entry(self, i: int) -> int {
        raw::le32(self.index, image_format::DETAIL_INDEX_LEN * i)
    }

    /// The detail record of index record `i`.
    pub open spec fn indexed_record(self, i: int) -> int {
        raw::le32(self.index, image_format::DETAIL_INDEX_LEN * i + 4)
    }

    /// Whether the index ascends strictly and names what exists.
    pub open spec fn index_ok(self, entries: int) -> bool {
        &&& forall|i: int|
            0 <= i < self.index_count ==> (#[trigger] self.indexed_entry(i)) < entries
                && self.indexed_record(i) < self.record_count
        &&& forall|i: int, j: int|
            0 <= i < j < self.index_count ==> #[trigger] self.indexed_entry(i)
                < #[trigger] self.indexed_entry(j)
    }

    /// The text of the description of record `i`.
    pub open spec fn description(self, i: int) -> int {
        raw::le32(self.records, image_format::DETAIL_RECORD_LEN * i)
    }

    /// The text shown for record `i`.
    pub open spec fn display(self, i: int) -> int {
        raw::le32(self.records, image_format::DETAIL_RECORD_LEN * i + 4)
    }

    /// The first relation of record `i`.
    pub open spec fn relation_start(self, i: int) -> int {
        raw::le32(self.records, image_format::DETAIL_RECORD_LEN * i + 8)
    }

    /// The relation behind the last one of record `i`.
    pub open spec fn relation_end(self, i: int) -> int {
        self.relation_start(i) + raw::le32(self.records, image_format::DETAIL_RECORD_LEN * i + 12)
    }

    /// The kind of relation `i`.
    pub open spec fn relation_kind(self, i: int) -> Option<DetailRelationKind> {
        DetailRelationKind::of_byte(self.relations[image_format::DETAIL_RELATION_LEN * i])
    }

    /// The text of relation `i`.
    pub open spec fn relation_text(self, i: int) -> int {
        raw::le32(self.relations, image_format::DETAIL_RELATION_LEN * i + 4)
    }

    /// The bytes of text `i`.
    pub open spec fn text_bytes(self, i: int) -> Option<Seq<u8>> {
        text_record(self.text_offsets, self.text_count, self.text, i)
    }

    /// The fault of text `i`, if it has one.
    pub open spec fn text_error(self, i: int) -> Option<Error> {
        match self.text_bytes(i) {
            None => Some(Error::BadEntry),
            Some(bytes) => unless(valid_utf8(bytes), Error::BadUtf8),
        }
    }

    /// The fault of record `i`, if it has one.
    pub open spec fn record_fault(self, i: int) -> Option<Error> {
        if self.description(i) >= self.text_count || self.display(i) >= self.text_count
            || self.relation_end(i) > self.relation_count {
            Some(Error::BadTable(image_format::TAG_DETAIL_RECORDS))
        } else {
            first(self.text_error(self.description(i)), self.text_error(self.display(i)))
        }
    }

    /// The fault of relation `i`, if it has one.
    pub open spec fn relation_fault(self, i: int) -> Option<Error> {
        let at = image_format::DETAIL_RELATION_LEN * i;
        if self.relations[at + 1] != 0u8 || self.relations[at + 2] != 0u8 || self.relations[at + 3]
            != 0u8 || self.relation_kind(i) is None || self.relation_text(i) >= self.text_count {
            Some(Error::BadTable(image_format::TAG_DETAIL_RELATIONS))
        } else {
            self.text_error(self.relation_text(i))
        }
    }

    /// The first fault of the records from `i` on.
    pub open spec fn records_error(self, i: int) -> Option<Error>
        decreases self.record_count - i,
    {
        if i >= self.record_count {
            None
        } else {
            first(self.record_fault(i), self.records_error(i + 1))
        }
    }

    /// The first fault of the relations from `i` on.
    pub open spec fn relations_error(self, i: int) -> Option<Error>
        decreases self.relation_count - i,
    {
        if i >= self.relation_count {
            None
        } else {
            first(self.relation_fault(i), self.relations_error(i + 1))
        }
    }

    /// The first fault of the details.
    pub open spec fn details_error(self, entries: int) -> Option<Error> {
        first(
            unless(
                offsets_ok(self.text_offsets, self.text_count, self.text),
                Error::BadTable(image_format::TAG_DETAIL_TEXT),
            ),
            first(
                unless(
                    self.index_ok(entries),
                    Error::BadTable(image_format::TAG_DETAIL_INDEX),
                ),
                first(self.records_error(0), self.relations_error(0)),
            ),
        )
    }
}

/// A valid image is well shaped.
pub proof fn lemma_valid_shaped(v: ImageView)
    requires
        v.valid(),
    ensures
        v.shaped(),
{
    reveal(ImageView::valid);
}

} // verus!
