//! Header, directory, and table shapes: from an untrusted byte string to the
//! tables of a [`Dictionary`].

use super::image;
use super::image_format;
use super::raw;
use super::validate::{
    begins_with, validate_boundary_table, validate_matrix_table, validate_single_kanji_table,
};
use super::{Details, Dictionary, Error, ImageVersion, SingleKanji, Table};
use vstd::prelude::*;

verus! {

/// The tables that every image has, and those that one version has.
struct CoreTables<'a> {
    louds: Table<'a>,
    nodes: Table<'a>,
    labels: Option<Table<'a>>,
    entries: Table<'a>,
    surface_offsets: Table<'a>,
    text: TextTables<'a>,
}

/// The tables from the surfaces on.
struct TextTables<'a> {
    surfaces: Table<'a>,
    annotation_offsets: Table<'a>,
    annotations: Table<'a>,
    annotation_index: Option<Table<'a>>,
    matrix: Table<'a>,
}

/// The tables of details, before their shape is known.
struct DetailTables<'a> {
    index: Table<'a>,
    records: Table<'a>,
    relations: Table<'a>,
    text_offsets: Table<'a>,
    text: Table<'a>,
}

/// The tables of single kanji, before their shape is known.
struct SingleKanjiTables<'a> {
    index: Table<'a>,
    readings: Table<'a>,
    chars: Table<'a>,
    variants: Table<'a>,
}

/// The tables that an image may have.
struct OptionalTables<'a> {
    boundaries: Option<&'a [u8]>,
    details: Option<DetailTables<'a>>,
    single_kanji: Option<SingleKanjiTables<'a>>,
}

impl<'a> Table<'a> {
    /// Whether this is the table of `b` with the given tag.
    spec fn stands(self, b: Seq<u8>, tag: [u8; 4]) -> bool {
        self.tag == tag && image::table(b, tag) == Some(self.view()) && 0 <= self.count
            <= 0xffff_ffff
    }
}

impl<'a> TextTables<'a> {
    spec fn stand(self, b: Seq<u8>) -> bool {
        &&& self.surfaces.stands(b, image_format::TAG_SURFACES)
        &&& self.annotation_offsets.stands(b, image_format::TAG_ANNOTATION_OFFSETS)
        &&& self.annotations.stands(b, image_format::TAG_ANNOTATIONS)
        &&& self.matrix.stands(b, image_format::TAG_MATRIX)
        &&& match self.annotation_index {
            Some(t) => image::is_v2(b) && t.stands(b, image_format::TAG_ANNOTATION_INDEX),
            None => !image::is_v2(b),
        }
    }
}

impl<'a> CoreTables<'a> {
    spec fn stand(self, b: Seq<u8>) -> bool {
        &&& self.louds.stands(b, image_format::TAG_LOUDS)
        &&& self.nodes.stands(b, image_format::TAG_NODES)
        &&& self.entries.stands(b, image_format::TAG_ENTRIES)
        &&& self.surface_offsets.stands(b, image_format::TAG_SURFACE_OFFSETS)
        &&& self.text.stand(b)
        &&& match self.labels {
            Some(t) => !image::is_v2(b) && t.stands(b, image_format::TAG_LABELS),
            None => image::is_v2(b),
        }
    }
}

impl<'a> DetailTables<'a> {
    spec fn stand(self, b: Seq<u8>) -> bool {
        &&& self.index.stands(b, image_format::TAG_DETAIL_INDEX)
        &&& self.records.stands(b, image_format::TAG_DETAIL_RECORDS)
        &&& self.relations.stands(b, image_format::TAG_DETAIL_RELATIONS)
        &&& self.text_offsets.stands(b, image_format::TAG_DETAIL_TEXT_OFFSETS)
        &&& self.text.stands(b, image_format::TAG_DETAIL_TEXT)
    }
}

impl<'a> SingleKanjiTables<'a> {
    spec fn stand(self, b: Seq<u8>) -> bool {
        &&& self.index.stands(b, image_format::TAG_SINGLE_KANJI_INDEX)
        &&& self.readings.stands(b, image_format::TAG_SINGLE_KANJI_READINGS)
        &&& self.chars.stands(b, image_format::TAG_SINGLE_KANJI_CHARS)
        &&& self.variants.stands(b, image_format::TAG_SINGLE_KANJI_VARIANTS)
    }
}

impl<'a> OptionalTables<'a> {
    spec fn stand(self, b: Seq<u8>) -> bool {
        &&& self.boundaries is Some <==> image::table(b, image_format::TAG_BOUNDARIES) is Some
        &&& self.boundaries matches Some(rows) ==> rows@ == image::table(
            b,
            image_format::TAG_BOUNDARIES,
        )->0.bytes.skip(image_format::BOUNDARY_HEADER_LEN as int)
        &&& match self.details {
            Some(t) => image::detail_tables(b) == 5 && t.stand(b),
            None => image::detail_tables(b) == 0,
        }
        &&& match self.single_kanji {
            Some(t) => image::single_kanji_tables(b) == 4 && t.stand(b),
            None => image::single_kanji_tables(b) == 0,
        }
    }
}

/// Whether the directory can be read and every table lies inside the image.
spec fn readable(b: Seq<u8>) -> bool {
    &&& image::header_error(b) is None
    &&& forall|i: int|
        0 <= i < image::table_count(b) ==> #[trigger] image::table_end(b, i) <= b.len()
}

/// The first fault of the header.
fn check_header(bytes: &[u8]) -> (r: Result<(), Error>)
    ensures
        match image::header_error(bytes@) {
            None => r is Ok,
            Some(e) => r == Err::<(), Error>(e),
        },
{
    if bytes.len() < image_format::HEADER_LEN {
        return Err(Error::Truncated);
    }
    let magic: [u8; 8] = image_format::MAGIC;
    if !begins_with(bytes, &magic) {
        return Err(Error::BadMagic);
    }
    let (Some(version), Some(header_len), Some(table_count), Some(class_count)) = (
        raw::read_u16(bytes, 8),
        raw::read_u16(bytes, 10),
        raw::read_u16(bytes, 12),
        raw::read_u16(bytes, 14),
    ) else {
        return Err(Error::Truncated);
    };
    let (Some(node_count), Some(image_len), Some(reserved)) = (
        raw::read_u32(bytes, 20),
        raw::read_u32(bytes, 24),
        raw::read_u32(bytes, 28),
    ) else {
        return Err(Error::Truncated);
    };
    if version != image_format::VERSION && version != image_format::VERSION_V2 {
        return Err(Error::UnsupportedVersion(version));
    }
    if header_len as usize != image_format::HEADER_LEN || table_count == 0 || table_count as usize
        > image_format::MAX_TABLES || class_count == 0 || node_count == 0 || image_len as usize
        != bytes.len() || reserved != 0 {
        return Err(Error::BadHeader);
    }
    if image_format::HEADER_LEN + image_format::DIRECTORY_ENTRY_LEN * (table_count as usize)
        > bytes.len() {
        return Err(Error::Truncated);
    }
    Ok(())
}

/// The place of a table in the image, as its directory entry gives it.
fn table_span(bytes: &[u8], index: usize) -> (r: (usize, u64))
    requires
        image::header_error(bytes@) is None,
        index < image::table_count(bytes@),
    ensures
        r.0 == image::table_start(bytes@, index as int),
        r.1 == image::table_end(bytes@, index as int),
{
    let at: usize = image_format::HEADER_LEN + image_format::DIRECTORY_ENTRY_LEN * index;
    match (raw::read_u32(bytes, at + 4), raw::read_u32(bytes, at + 8)) {
        (Some(start), Some(len)) => (start as usize, start as u64 + len as u64),
        _ => (0, 0),
    }
}

/// One table of the directory.
fn directory_table<'a>(bytes: &'a [u8], index: usize) -> (t: Table<'a>)
    requires
        readable(bytes@),
        index < image::table_count(bytes@),
    ensures
        t.tag == image::table_tag(bytes@, index as int),
        t.view() == image::table_view(bytes@, index as int),
        t.count <= 0xffff_ffff,
{
    let at: usize = image_format::HEADER_LEN + image_format::DIRECTORY_ENTRY_LEN * index;
    let (start, end) = table_span(bytes, index);
    let count: usize = match raw::read_u32(bytes, at + 12) {
        Some(count) => count as usize,
        None => 0,
    };
    assert(image::table_end(bytes@, index as int) <= bytes@.len());
    Table {
        tag: raw::read_tag(bytes, at),
        bytes: vstd::slice::slice_subrange(bytes, start, end as usize),
        count,
    }
}

/// The first fault of the directory.
fn validate_directory(bytes: &[u8], table_count: usize) -> (r: Result<(), Error>)
    requires
        image::header_error(bytes@) is None,
        table_count == image::table_count(bytes@),
    ensures
        match image::directory_error(bytes@, 0) {
            None => r is Ok,
            Some(e) => r == Err::<(), Error>(e),
        },
        r is Ok ==> readable(bytes@),
{
    let directory_end: usize = image_format::HEADER_LEN + image_format::DIRECTORY_ENTRY_LEN
        * table_count;
    let mut index: usize = 0;
    while index < table_count
        invariant
            image::header_error(bytes@) is None,
            table_count == image::table_count(bytes@),
            directory_end == image::directory_end(bytes@),
            index <= table_count,
            image::directory_error(bytes@, 0) == image::directory_error(bytes@, index as int),
            forall|i: int|
                0 <= i < index ==> #[trigger] image::table_end(bytes@, i) <= bytes@.len(),
        decreases table_count - index,
    {
        let (start, end) = table_span(bytes, index);
        if end > bytes.len() as u64 || start < directory_end || start % 8 != 0 {
            return Err(Error::BadDirectory);
        }
        assert(image::table_placed(bytes@, index as int));
        let mut other: usize = index + 1;
        while other < table_count
            invariant
                image::header_error(bytes@) is None,
                table_count == image::table_count(bytes@),
                index < other <= table_count,
                start == image::table_start(bytes@, index as int),
                end == image::table_end(bytes@, index as int),
                image::table_placed(bytes@, index as int),
                image::directory_error(bytes@, 0) == image::directory_error(
                    bytes@,
                    index as int,
                ),
                image::pairs_error(bytes@, index as int, index + 1) == image::pairs_error(
                    bytes@,
                    index as int,
                    other as int,
                ),
            decreases table_count - other,
        {
            let (other_start, other_end) = table_span(bytes, other);
            if other_end > bytes.len() as u64 {
                return Err(Error::BadDirectory);
            }
            let tag = raw::read_tag(
                bytes,
                image_format::HEADER_LEN + image_format::DIRECTORY_ENTRY_LEN * index,
            );
            let other_tag = raw::read_tag(
                bytes,
                image_format::HEADER_LEN + image_format::DIRECTORY_ENTRY_LEN * other,
            );
            if raw::same_tag(tag, other_tag) {
                return Err(Error::DuplicateTable(tag));
            }
            if (start as u64) < other_end && (other_start as u64) < end {
                return Err(Error::BadDirectory);
            }
            other = other + 1;
        }
        index = index + 1;
    }
    Ok(())
}

/// The table with the given tag, if there is one.
fn optional_table<'a>(bytes: &'a [u8], table_count: usize, tag: [u8; 4]) -> (r: Option<Table<'a>>)
    requires
        readable(bytes@),
        table_count == image::table_count(bytes@),
    ensures
        r is None <==> image::table(bytes@, tag) is None,
        r matches Some(t) ==> t.stands(bytes@, tag),
{
    let mut index: usize = 0;
    while index < table_count
        invariant
            readable(bytes@),
            table_count == image::table_count(bytes@),
            index <= table_count,
            image::table(bytes@, tag) == image::find_table(bytes@, tag, index as int),
        decreases table_count - index,
    {
        let table = directory_table(bytes, index);
        if raw::same_tag(table.tag, tag) {
            return Some(table);
        }
        index = index + 1;
    }
    None
}

/// The table with the given tag.
fn required_table<'a>(bytes: &'a [u8], table_count: usize, tag: [u8; 4]) -> (r: Result<
    Table<'a>,
    Error,
>)
    requires
        readable(bytes@),
        table_count == image::table_count(bytes@),
    ensures
        match image::required(bytes@, tag) {
            None => r matches Ok(t) && t.stands(bytes@, tag),
            Some(e) => r matches Err(f) && f == e,
        },
{
    match optional_table(bytes, table_count, tag) {
        Some(table) => Ok(table),
        None => Err(Error::MissingTable(tag)),
    }
}

/// The tables from the surfaces on.
fn text_tables<'a>(bytes: &'a [u8], table_count: usize, version: ImageVersion) -> (r: Result<
    TextTables<'a>,
    Error,
>)
    requires
        readable(bytes@),
        table_count == image::table_count(bytes@),
        version is V2 <==> image::is_v2(bytes@),
    ensures
        match image::text_tables_error(bytes@) {
            None => r matches Ok(t) && t.stand(bytes@),
            Some(e) => r matches Err(f) && f == e,
        },
{
    let surfaces = match required_table(bytes, table_count, image_format::TAG_SURFACES) {
        Ok(t) => t,
        Err(e) => {
            return Err(e);
        },
    };
    let annotation_offsets = match required_table(
        bytes,
        table_count,
        image_format::TAG_ANNOTATION_OFFSETS,
    ) {
        Ok(t) => t,
        Err(e) => {
            return Err(e);
        },
    };
    let annotations = match required_table(bytes, table_count, image_format::TAG_ANNOTATIONS) {
        Ok(t) => t,
        Err(e) => {
            return Err(e);
        },
    };
    let annotation_index = match version {
        ImageVersion::V1 => {
            if optional_table(
                bytes,
                table_count,
                image_format::TAG_ANNOTATION_INDEX,
            ).is_some() {
                return Err(Error::BadTable(image_format::TAG_ANNOTATION_INDEX));
            }
            None
        },
        ImageVersion::V2 => match required_table(
            bytes,
            table_count,
            image_format::TAG_ANNOTATION_INDEX,
        ) {
            Ok(t) => Some(t),
            Err(e) => {
                return Err(e);
            },
        },
    };
    let matrix = match required_table(bytes, table_count, image_format::TAG_MATRIX) {
        Ok(t) => t,
        Err(e) => {
            return Err(e);
        },
    };
    Ok(TextTables { surfaces, annotation_offsets, annotations, annotation_index, matrix })
}

/// The tables that the version asks for.
fn core_tables<'a>(bytes: &'a [u8], table_count: usize, version: ImageVersion) -> (r: Result<
    CoreTables<'a>,
    Error,
>)
    requires
        readable(bytes@),
        table_count == image::table_count(bytes@),
        version is V2 <==> image::is_v2(bytes@),
    ensures
        match image::core_tables_error(bytes@) {
            None => r matches Ok(t) && t.stand(bytes@),
            Some(e) => r matches Err(f) && f == e,
        },
{
    let louds = match required_table(bytes, table_count, image_format::TAG_LOUDS) {
        Ok(t) => t,
        Err(e) => {
            return Err(e);
        },
    };
    let nodes = match required_table(bytes, table_count, image_format::TAG_NODES) {
        Ok(t) => t,
        Err(e) => {
            return Err(e);
        },
    };
    let labels = match version {
        ImageVersion::V1 => match required_table(bytes, table_count, image_format::TAG_LABELS) {
            Ok(t) => Some(t),
            Err(e) => {
                return Err(e);
            },
        },
        ImageVersion::V2 => {
            if optional_table(bytes, table_count, image_format::TAG_LABELS).is_some() {
                return Err(Error::BadTable(image_format::TAG_LABELS));
            }
            None
        },
    };
    let entries = match required_table(bytes, table_count, image_format::TAG_ENTRIES) {
        Ok(t) => t,
        Err(e) => {
            return Err(e);
        },
    };
    let surface_offsets = match required_table(
        bytes,
        table_count,
        image_format::TAG_SURFACE_OFFSETS,
    ) {
        Ok(t) => t,
        Err(e) => {
            return Err(e);
        },
    };
    match text_tables(bytes, table_count, version) {
        Ok(text) => Ok(CoreTables { louds, nodes, labels, entries, surface_offsets, text }),
        Err(e) => Err(e),
    }
}

/// The tables that an image may have.
fn optional_tables<'a>(bytes: &'a [u8], table_count: usize, class_count: usize) -> (r: Result<
    OptionalTables<'a>,
    Error,
>)
    requires
        readable(bytes@),
        table_count == image::table_count(bytes@),
        class_count == raw::le16(bytes@, 14),
    ensures
        match image::optional_tables_error(bytes@) {
            None => r matches Ok(t) && t.stand(bytes@),
            Some(e) => r matches Err(f) && f == e,
        },
{
    let boundaries = match optional_table(bytes, table_count, image_format::TAG_BOUNDARIES) {
        Some(table) => match validate_boundary_table(table, class_count) {
            Ok(rows) => Some(rows),
            Err(e) => {
                return Err(e);
            },
        },
        None => None,
    };
    let details = match (
        optional_table(bytes, table_count, image_format::TAG_DETAIL_INDEX),
        optional_table(bytes, table_count, image_format::TAG_DETAIL_RECORDS),
        optional_table(bytes, table_count, image_format::TAG_DETAIL_RELATIONS),
        optional_table(bytes, table_count, image_format::TAG_DETAIL_TEXT_OFFSETS),
        optional_table(bytes, table_count, image_format::TAG_DETAIL_TEXT),
    ) {
        (Some(index), Some(records), Some(relations), Some(text_offsets), Some(text)) => Some(
            DetailTables { index, records, relations, text_offsets, text },
        ),
        (None, None, None, None, None) => None,
        _ => {
            return Err(Error::BadTable(image_format::TAG_DETAIL_INDEX));
        },
    };
    let single_kanji = match (
        optional_table(bytes, table_count, image_format::TAG_SINGLE_KANJI_INDEX),
        optional_table(bytes, table_count, image_format::TAG_SINGLE_KANJI_READINGS),
        optional_table(bytes, table_count, image_format::TAG_SINGLE_KANJI_CHARS),
        optional_table(bytes, table_count, image_format::TAG_SINGLE_KANJI_VARIANTS),
    ) {
        (Some(index), Some(readings), Some(chars), Some(variants)) => Some(
            SingleKanjiTables { index, readings, chars, variants },
        ),
        (None, None, None, None) => None,
        _ => {
            return Err(Error::BadTable(image_format::TAG_SINGLE_KANJI_INDEX));
        },
    };
    Ok(OptionalTables { boundaries, details, single_kanji })
}

/// The fault of a table that does not hold `count` records of `stride` bytes.
fn expect_fixed_count(table: &Table<'_>, count: usize, stride: usize) -> (r: Result<(), Error>)
    requires
        count <= 0xffff_ffff,
        1 <= stride <= 24,
    ensures
        match image::fixed(table.view(), table.tag, count as int, stride as int) {
            None => r is Ok,
            Some(e) => r == Err::<(), Error>(e),
        },
{
    proof {
        assert(0 <= count * stride <= 24 * 0xffff_ffff) by (nonlinear_arith)
            requires
                0 <= count <= 0xffff_ffff,
                1 <= stride <= 24,
        ;
    }
    if table.count != count || count as u64 * stride as u64 != table.bytes.len() as u64 {
        return Err(Error::BadTable(table.tag));
    }
    Ok(())
}

/// The number of surfaces, where the tables from the annotations on have no
/// fault in their shape.
fn check_text_shape(
    tables: &TextTables<'_>,
    version: ImageVersion,
    class_count: usize,
    louds: &Table<'_>,
    Ghost(b): Ghost<Seq<u8>>,
) -> (r: Result<(), Error>)
    requires
        image::header_error(b) is None,
        tables.stand(b),
        louds.stands(b, image_format::TAG_LOUDS),
        version is V2 <==> image::is_v2(b),
        class_count == raw::le16(b, 14),
    ensures
        match image::text_shape_error(b) {
            None => r is Ok,
            Some(e) => r == Err::<(), Error>(e),
        },
{
    match expect_fixed_count(&tables.annotation_offsets, tables.annotation_offsets.count, 4) {
        Ok(()) => {},
        Err(e) => {
            return Err(e);
        },
    }
    if version == ImageVersion::V2 && tables.annotations.count != tables.annotation_offsets.count {
        return Err(Error::BadTable(image_format::TAG_ANNOTATIONS));
    }
    if let Some(index) = &tables.annotation_index {
        match expect_fixed_count(index, index.count, image_format::ANNOTATION_INDEX_LEN_V2) {
            Ok(()) => {},
            Err(e) => {
                return Err(e);
            },
        }
    }
    match validate_matrix_table(tables.matrix, class_count) {
        Ok(()) => {},
        Err(e) => {
            return Err(e);
        },
    }
    if louds.bytes.len() < 4 {
        return Err(Error::BadTable(image_format::TAG_LOUDS));
    }
    Ok(())
}

/// The first fault in the shape of the tables that every image has.
fn check_core_shape(
    tables: &CoreTables<'_>,
    version: ImageVersion,
    class_count: usize,
    entry_count: usize,
    node_count: usize,
    Ghost(b): Ghost<Seq<u8>>,
) -> (r: Result<(), Error>)
    requires
        image::header_error(b) is None,
        tables.stand(b),
        version is V2 <==> image::is_v2(b),
        class_count == raw::le16(b, 14),
        entry_count == raw::le32(b, 16),
        node_count == raw::le32(b, 20),
    ensures
        match image::core_shape_error(b) {
            None => r is Ok,
            Some(e) => r == Err::<(), Error>(e),
        },
{
    match expect_fixed_count(&tables.nodes, node_count, version.node_len()) {
        Ok(()) => {},
        Err(e) => {
            return Err(e);
        },
    }
    if let Some(labels) = &tables.labels {
        match expect_fixed_count(labels, node_count, 4) {
            Ok(()) => {},
            Err(e) => {
                return Err(e);
            },
        }
    }
    match expect_fixed_count(&tables.entries, entry_count, version.entry_len()) {
        Ok(()) => {},
        Err(e) => {
            return Err(e);
        },
    }
    let offset_count: usize = match version {
        ImageVersion::V1 => tables.surface_offsets.count,
        ImageVersion::V2 => restart_count(tables.text.surfaces.count),
    };
    match expect_fixed_count(&tables.surface_offsets, offset_count, 4) {
        Ok(()) => {},
        Err(e) => {
            return Err(e);
        },
    }
    check_text_shape(&tables.text, version, class_count, &tables.louds, Ghost(b))
}

/// How many restart points `count` surfaces have.
fn restart_count(count: usize) -> (n: usize)
    requires
        count <= 0xffff_ffff,
    ensures
        n == image::restarts(count as int),
        n <= 0xffff_ffff,
{
    let interval: usize = image_format::SURFACE_RESTART_INTERVAL;
    count / interval + (if count % interval > 0 {
        1
    } else {
        0
    })
}

/// The tables of details, where their shape has no fault.
fn details<'a>(tables: Option<DetailTables<'a>>, Ghost(b): Ghost<Seq<u8>>) -> (r: Result<
    Option<Details<'a>>,
    Error,
>)
    requires
        match tables {
            Some(t) => image::detail_tables(b) == 5 && t.stand(b),
            None => image::detail_tables(b) == 0,
        },
    ensures
        match image::detail_shape_error(b) {
            None => r matches Ok(d) && match d {
                Some(details) => image::details_view(b) == Some(details.view())
                    && details.view().shaped(),
                None => image::details_view(b) is None,
            },
            Some(e) => r matches Err(f) && f == e,
        },
{
    let Some(t) = tables else {
        return Ok(None);
    };
    match expect_fixed_count(&t.index, t.index.count, image_format::DETAIL_INDEX_LEN) {
        Ok(()) => {},
        Err(e) => {
            return Err(e);
        },
    }
    match expect_fixed_count(&t.records, t.records.count, image_format::DETAIL_RECORD_LEN) {
        Ok(()) => {},
        Err(e) => {
            return Err(e);
        },
    }
    match expect_fixed_count(&t.relations, t.relations.count, image_format::DETAIL_RELATION_LEN) {
        Ok(()) => {},
        Err(e) => {
            return Err(e);
        },
    }
    match expect_fixed_count(&t.text_offsets, t.text_offsets.count, 4) {
        Ok(()) => {},
        Err(e) => {
            return Err(e);
        },
    }
    Ok(
        Some(
            Details {
                index: t.index.bytes,
                index_count: t.index.count,
                records: t.records.bytes,
                record_count: t.records.count,
                relations: t.relations.bytes,
                relation_count: t.relations.count,
                text_offsets: t.text_offsets.bytes,
                text_count: t.text_offsets.count,
                text: t.text.bytes,
            },
        ),
    )
}

/// The tables of single kanji, where they have no fault.
fn single_kanji<'a>(tables: Option<SingleKanjiTables<'a>>, Ghost(b): Ghost<Seq<u8>>) -> (r: Result<
    Option<SingleKanji<'a>>,
    Error,
>)
    requires
        match tables {
            Some(t) => image::single_kanji_tables(b) == 4 && t.stand(b),
            None => image::single_kanji_tables(b) == 0,
        },
    ensures
        match image::single_kanji_shape_error(b) {
            None => r matches Ok(d) && match d {
                Some(table) => image::single_kanji_view(b) == Some(table.view())
                    && table.view().shaped() && image::single_kanji_error(table.view()) is None,
                None => image::single_kanji_view(b) is None,
            },
            Some(e) => r matches Err(f) && f == e,
        },
{
    let Some(t) = tables else {
        return Ok(None);
    };
    match expect_fixed_count(&t.index, t.index.count, image_format::SINGLE_KANJI_INDEX_LEN) {
        Ok(()) => {},
        Err(e) => {
            return Err(e);
        },
    }
    match expect_fixed_count(&t.chars, t.chars.count, image_format::SINGLE_KANJI_CHAR_LEN) {
        Ok(()) => {},
        Err(e) => {
            return Err(e);
        },
    }
    match expect_fixed_count(
        &t.variants,
        t.variants.count,
        image_format::SINGLE_KANJI_VARIANT_LEN,
    ) {
        Ok(()) => {},
        Err(e) => {
            return Err(e);
        },
    }
    if t.readings.count != t.readings.bytes.len() {
        return Err(Error::BadTable(image_format::TAG_SINGLE_KANJI_READINGS));
    }
    let table = SingleKanji {
        index: t.index.bytes,
        index_count: t.index.count,
        readings: t.readings.bytes,
        chars: t.chars.bytes,
        char_count: t.chars.count,
        variants: t.variants.bytes,
        variant_count: t.variants.count,
    };
    match validate_single_kanji_table(&table) {
        Ok(()) => Ok(Some(table)),
        Err(e) => Err(e),
    }
}

/// The number of LOUDS bits, where their table has no fault.
fn louds_bits(table: &Table<'_>, Ghost(b): Ghost<Seq<u8>>) -> (r: Result<usize, Error>)
    requires
        table.stands(b, image_format::TAG_LOUDS),
        table.bytes@.len() >= 4,
    ensures
        match image::louds_shape_error(b) {
            None => r matches Ok(bits) && bits == raw::le32(table.bytes@, 0),
            Some(e) => r matches Err(f) && f == e,
        },
{
    let bad = Error::BadTable(image_format::TAG_LOUDS);
    let Some(bits) = raw::read_u32(table.bytes, 0) else {
        return Err(bad);
    };
    let bits: usize = bits as usize;
    let Some(rounded) = bits.checked_add(7) else {
        return Err(bad);
    };
    if table.count != bits || table.bytes.len() - 4 != rounded / 8 {
        return Err(bad);
    }
    Ok(bits)
}

impl<'a> Dictionary<'a> {
    /// Accepts exactly the images without a fault, and names the first fault of
    /// any other byte string.
    pub fn parse(bytes: &'a [u8]) -> (r: Result<Self, Error>)
        ensures
            match image::image_error(bytes@) {
                None => r matches Ok(d) && d@ == image::image_view(bytes@) && d@.valid(),
                Some(e) => r matches Err(f) && f == e,
            },
    {
        let ghost b = bytes@;
        match check_header(bytes) {
            Ok(()) => {},
            Err(e) => {
                return Err(e);
            },
        }
        let (Some(raw_version), Some(table_count), Some(class_count)) = (
            raw::read_u16(bytes, 8),
            raw::read_u16(bytes, 12),
            raw::read_u16(bytes, 14),
        ) else {
            return Err(Error::Truncated);
        };
        let (Some(entry_count), Some(node_count)) = (
            raw::read_u32(bytes, 16),
            raw::read_u32(bytes, 20),
        ) else {
            return Err(Error::Truncated);
        };
        let version = if raw_version == image_format::VERSION {
            ImageVersion::V1
        } else {
            ImageVersion::V2
        };
        let table_count: usize = table_count as usize;
        let class_count: usize = class_count as usize;
        let entry_count: usize = entry_count as usize;
        let node_count: usize = node_count as usize;
        match validate_directory(bytes, table_count) {
            Ok(()) => {},
            Err(e) => {
                return Err(e);
            },
        }
        let tables = match core_tables(bytes, table_count, version) {
            Ok(tables) => tables,
            Err(e) => {
                return Err(e);
            },
        };
        let optional = match optional_tables(bytes, table_count, class_count) {
            Ok(tables) => tables,
            Err(e) => {
                return Err(e);
            },
        };
        match check_core_shape(
            &tables,
            version,
            class_count,
            entry_count,
            node_count,
            Ghost(b),
        ) {
            Ok(()) => {},
            Err(e) => {
                return Err(e);
            },
        }
        let details = match details(optional.details, Ghost(b)) {
            Ok(details) => details,
            Err(e) => {
                return Err(e);
            },
        };
        let single_kanji = match single_kanji(optional.single_kanji, Ghost(b)) {
            Ok(single_kanji) => single_kanji,
            Err(e) => {
                return Err(e);
            },
        };
        let louds_bits = match louds_bits(&tables.louds, Ghost(b)) {
            Ok(bits) => bits,
            Err(e) => {
                return Err(e);
            },
        };
        let nothing: &'a [u8] = vstd::slice::slice_subrange(bytes, 0, 0);
        let dictionary = Dictionary {
            version,
            class_count,
            entry_count,
            node_count,
            louds: vstd::slice::slice_subrange(tables.louds.bytes, 4, tables.louds.bytes.len()),
            louds_bits,
            nodes: tables.nodes.bytes,
            labels: match tables.labels {
                Some(table) => table.bytes,
                None => nothing,
            },
            entries: tables.entries.bytes,
            surface_offsets: tables.surface_offsets.bytes,
            surface_count: match version {
                ImageVersion::V1 => tables.surface_offsets.count,
                ImageVersion::V2 => tables.text.surfaces.count,
            },
            surfaces: tables.text.surfaces.bytes,
            annotation_offsets: tables.text.annotation_offsets.bytes,
            annotation_count: tables.text.annotation_offsets.count,
            annotations: tables.text.annotations.bytes,
            annotation_index: match tables.text.annotation_index {
                Some(table) => Some(table.bytes),
                None => None,
            },
            annotation_index_count: match tables.text.annotation_index {
                Some(table) => table.count,
                None => 0,
            },
            matrix: tables.text.matrix.bytes,
            boundaries: optional.boundaries,
            details,
            single_kanji,
        };
        proof {
            let v = image::image_view(b);
            assert(dictionary.louds@ =~= v.louds);
            assert(dictionary.labels@ =~= v.labels);
            assert(dictionary@ == v);
            assert(v.shaped());
            reveal(image::ImageView::valid);
        }
        match dictionary.validate_tables() {
            Ok(()) => Ok(dictionary),
            Err(e) => Err(e),
        }
    }
}

} // verus!
