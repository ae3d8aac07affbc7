//! Record-level and cross-table validation of a parsed dictionary image.

use super::image;
use super::image_format;
use super::raw;
use super::{
    text_record, DetailRelationKind, Details, Dictionary, Error, ImageVersion, SingleKanji,
    SingleKanjiVariantKind, Table,
};
use crate::strings;
use vstd::prelude::*;
#[allow(unused_imports)]
use vstd::utf8::*;

verus! {

/// Whether `bytes` begins with `magic`.
pub(super) fn begins_with(bytes: &[u8], magic: &[u8]) -> (r: bool)
    ensures
        r == (bytes@.len() >= magic@.len() && bytes@.take(magic@.len() as int) == magic@),
{
    if bytes.len() < magic.len() {
        return false;
    }
    strings::same_bytes(vstd::slice::slice_subrange(bytes, 0, magic.len()), magic)
}

/// An element of a rectangle lies inside it.
proof fn lemma_in_rectangle(row: int, rows: int, column: int, width: int)
    by (nonlinear_arith)
    requires
        0 <= row < rows,
        0 <= column < width,
    ensures
        0 <= row * width + column < rows * width,
{
}

/// The rectangle that 65535 classes take fits in 32 bits.
proof fn lemma_rectangle_small(classes: int)
    by (nonlinear_arith)
    requires
        0 <= classes <= 0xffff,
    ensures
        0 <= classes * ((classes + 7) / 8) <= 0x2000_0000,
{
    assert((classes + 7) / 8 <= 0x2000);
    assert(classes * ((classes + 7) / 8) <= 0xffff * 0x2000);
}

/// Accepts exactly the well-formed boundary tables, and returns the rows
/// without the table's header.
pub(super) fn validate_boundary_table<'a>(table: Table<'a>, class_count: usize) -> (r: Result<
    &'a [u8],
    Error,
>)
    requires
        1 <= class_count <= 0xffff,
    ensures
        r is Ok <==> image::boundary_table_ok(table.view(), class_count as int),
        r matches Ok(rows) ==> rows@ == table.bytes@.skip(
            image_format::BOUNDARY_HEADER_LEN as int,
        ),
        r matches Err(e) ==> e == Error::BadTable(image_format::TAG_BOUNDARIES),
{
    let bad = Error::BadTable(image_format::TAG_BOUNDARIES);
    let row_bytes: usize = (class_count + 7) / 8;
    proof {
        lemma_rectangle_small(class_count as int);
    }
    let rows_len: usize = class_count * row_bytes;
    let magic: [u8; 4] = image_format::BOUNDARY_MAGIC;
    if table.count != class_count || table.bytes.len() != image_format::BOUNDARY_HEADER_LEN
        + rows_len || !begins_with(table.bytes, &magic) {
        return Err(bad);
    }
    match (raw::read_u16(table.bytes, 4), raw::read_u16(table.bytes, 6)) {
        (Some(classes), Some(reserved)) => {
            if classes as usize != class_count || reserved != 0 {
                return Err(bad);
            }
        },
        _ => {
            return Err(bad);
        },
    }
    let rows: &'a [u8] = vstd::slice::slice_subrange(
        table.bytes,
        image_format::BOUNDARY_HEADER_LEN,
        table.bytes.len(),
    );
    assert(rows@ =~= table.bytes@.skip(image_format::BOUNDARY_HEADER_LEN as int));
    let ghost classes = class_count as int;
    let mut right: usize = 0;
    while right < class_count
        invariant
            1 <= class_count <= 0xffff,
            classes == class_count,
            row_bytes == image::boundary_row_bytes(classes),
            rows@.len() == class_count * row_bytes,
            class_count * row_bytes <= 0x2000_0000,
            right <= class_count,
            forall|r: int| 0 <= r < right ==> #[trigger] image::boundary_row_ok(rows@, classes, r),
            bad == Error::BadTable(image_format::TAG_BOUNDARIES),
            rows@ == table.bytes@.skip(image_format::BOUNDARY_HEADER_LEN as int),
            table.count == class_count,
        decreases class_count - right,
    {
        if !boundary_bit(rows, class_count, right, 0) || !boundary_bit(rows, class_count, 0, right)
        {
            assert(!image::boundary_row_ok(rows@, classes, right as int));
            return Err(bad);
        }
        let mut padding: usize = class_count;
        while padding < row_bytes * 8
            invariant
                1 <= class_count <= 0xffff,
                classes == class_count,
                right < class_count,
                class_count <= padding,
                row_bytes == image::boundary_row_bytes(classes),
                rows@.len() == class_count * row_bytes,
                class_count * row_bytes <= 0x2000_0000,
                forall|p: int|
                    class_count <= p < padding ==> !#[trigger] image::boundary_bit(
                        rows@,
                        classes,
                        right as int,
                        p,
                    ),
                bad == Error::BadTable(image_format::TAG_BOUNDARIES),
                rows@ == table.bytes@.skip(image_format::BOUNDARY_HEADER_LEN as int),
            decreases row_bytes * 8 - padding,
        {
            if boundary_bit(rows, class_count, right, padding) {
                assert(!image::boundary_row_ok(rows@, classes, right as int));
                return Err(bad);
            }
            padding = padding + 1;
        }
        assert(image::boundary_row_ok(rows@, classes, right as int));
        right = right + 1;
    }
    Ok(rows)
}

/// The bit of a pair of classes; `left` may lie in the padding of the row.
pub(super) fn boundary_bit(rows: &[u8], class_count: usize, right: usize, left: usize) -> (r: bool)
    requires
        1 <= class_count <= 0xffff,
        right < class_count,
        left < 8 * image::boundary_row_bytes(class_count as int),
        rows@.len() == class_count * image::boundary_row_bytes(class_count as int),
    ensures
        r == image::boundary_bit(rows@, class_count as int, right as int, left as int),
{
    let row_bytes: usize = (class_count + 7) / 8;
    proof {
        lemma_rectangle_small(class_count as int);
        lemma_in_rectangle(
            right as int,
            class_count as int,
            left as int / 8,
            row_bytes as int,
        );
        lemma_in_rectangle(right as int, class_count as int, 0, row_bytes as int);
    }
    let byte: u8 = rows[right * row_bytes + left / 8];
    (byte & (1u8 << ((left % 8) as u8))) != 0u8
}

/// Accepts exactly the well-formed connection matrices.
pub(super) fn validate_matrix_table(table: Table<'_>, class_count: usize) -> (r: Result<(), Error>)
    requires
        1 <= class_count <= 0xffff,
    ensures
        r is Ok <==> image::matrix_table_ok(table.view(), class_count as int),
        r matches Err(e) ==> e == Error::BadTable(image_format::TAG_MATRIX),
{
    let bad = Error::BadTable(image_format::TAG_MATRIX);
    let m: &[u8] = table.bytes;
    let magic: [u8; 4] = image_format::MATRIX_MAGIC;
    if table.count != class_count || m.len() < image_format::MATRIX_HEADER_LEN || !begins_with(
        m,
        &magic,
    ) {
        return Err(bad);
    }
    let (Some(classes), Some(flags), Some(override_count), Some(reserved)) = (
        raw::read_u16(m, 4),
        raw::read_u16(m, 6),
        raw::read_u32(m, 8),
        raw::read_u32(m, 12),
    ) else {
        return Err(bad);
    };
    if classes as usize != class_count || flags != 0 || reserved != 0 {
        return Err(bad);
    }
    let modes_end: usize = image_format::MATRIX_HEADER_LEN + 2 * class_count;
    let rows_at: usize = (modes_end + 3) / 4 * 4;
    let rows_end: usize = rows_at + image_format::MATRIX_ROW_LEN * class_count;
    if (m.len() as u64) != (rows_end as u64) + 4 * (override_count as u64) {
        return Err(bad);
    }
    let mut k: usize = modes_end;
    while k < rows_at
        invariant
            1 <= class_count <= 0xffff,
            modes_end == image_format::MATRIX_HEADER_LEN + 2 * class_count,
            rows_at == image::matrix_rows_at(class_count as int),
            modes_end <= k <= rows_at <= m@.len(),
            m@ == table.bytes@,
            forall|i: int| modes_end <= i < k ==> m@[i] == 0u8,
            bad == Error::BadTable(image_format::TAG_MATRIX),
        decreases rows_at - k,
    {
        if m[k] != 0 {
            return Err(bad);
        }
        k = k + 1;
    }
    assert(image::matrix_shape_ok(table.view(), class_count as int));
    let mut next_start: usize = 0;
    let mut row: usize = 0;
    while row < class_count
        invariant
            1 <= class_count <= 0xffff,
            row <= class_count,
            m@ == table.bytes@,
            override_count == raw::le32(m@, 8),
            rows_at == image::matrix_rows_at(class_count as int),
            rows_end == image::matrix_rows_end(class_count as int),
            m@.len() == rows_end + 4 * override_count,
            image::matrix_shape_ok(table.view(), class_count as int),
            forall|i: int|
                0 <= i < row ==> #[trigger] image::matrix_row_ok(m@, class_count as int, i),
            next_start == (if row == 0 {
                0
            } else {
                image::matrix_end(m@, class_count as int, row - 1)
            }),
            bad == Error::BadTable(image_format::TAG_MATRIX),
        decreases class_count - row,
    {
        match validate_matrix_row(m, class_count, row, next_start) {
            Some(end) => {
                next_start = end;
            },
            None => {
                assert(!image::matrix_row_ok(m@, class_count as int, row as int));
                return Err(bad);
            },
        }
        row = row + 1;
    }
    if next_start as u64 != override_count as u64 {
        return Err(bad);
    }
    Ok(())
}

/// The override behind the last one of a well-formed row.
fn validate_matrix_row(m: &[u8], class_count: usize, row: usize, next_start: usize) -> (r: Option<
    usize,
>)
    requires
        1 <= class_count <= 0xffff,
        row < class_count,
        m@.len() >= image_format::MATRIX_HEADER_LEN,
        m@.len() == image::matrix_rows_end(class_count as int) + 4 * raw::le32(m@, 8),
        next_start == (if row == 0 {
            0
        } else {
            image::matrix_end(m@, class_count as int, row - 1)
        }),
    ensures
        r is Some <==> image::matrix_row_ok(m@, class_count as int, row as int),
        r matches Some(end) ==> end == image::matrix_end(m@, class_count as int, row as int),
{
    let ghost classes = class_count as int;
    let modes_end: usize = image_format::MATRIX_HEADER_LEN + 2 * class_count;
    let rows_at: usize = (modes_end + 3) / 4 * 4;
    let rows_end: usize = rows_at + image_format::MATRIX_ROW_LEN * class_count;
    let descriptor: usize = rows_at + image_format::MATRIX_ROW_LEN * row;
    assert(m.len() == m@.len());
    let (Some(override_count), Some(mode), Some(start), Some(count)) = (
        raw::read_u32(m, 8),
        raw::read_u16(m, image_format::MATRIX_HEADER_LEN + 2 * row),
        raw::read_u32(m, descriptor),
        raw::read_u32(m, descriptor + 4),
    ) else {
        return None;
    };
    let end: u64 = start as u64 + count as u64;
    if start as u64 != next_start as u64 || end > override_count as u64 {
        return None;
    }
    let end: usize = end as usize;
    let start: usize = start as usize;
    let mut previous: Option<usize> = None;
    let mut index: usize = start;
    while index < end
        invariant
            1 <= class_count <= 0xffff,
            classes == class_count,
            row < class_count,
            override_count == raw::le32(m@, 8),
            m@.len() == image::matrix_rows_end(classes) + 4 * override_count,
            m@.len() == m.len(),
            rows_end == image::matrix_rows_end(classes),
            start == image::matrix_start(m@, classes, row as int),
            end == image::matrix_end(m@, classes, row as int),
            start <= index <= end <= override_count,
            mode == image::matrix_mode(m@, row as int),
            index == start <==> previous is None,
            previous matches Some(p) ==> p == image::matrix_left(m@, classes, index - 1),
            forall|k: int|
                start <= k < index ==> #[trigger] image::matrix_left(m@, classes, k) < classes
                    && image::matrix_cost(m@, classes, k) != mode,
            forall|j: int, k: int|
                start <= j < k < index ==> #[trigger] image::matrix_left(m@, classes, j)
                    < #[trigger] image::matrix_left(m@, classes, k),
        decreases end - index,
    {
        let at: usize = rows_end + image_format::MATRIX_OVERRIDE_LEN * index;
        let (Some(left), Some(cost)) = (raw::read_u16(m, at), raw::read_u16(m, at + 2)) else {
            return None;
        };
        let left: usize = left as usize;
        assert(left == image::matrix_left(m@, classes, index as int));
        if left >= class_count || cost == mode {
            return None;
        }
        if let Some(before) = previous {
            if before >= left {
                assert(image::matrix_left(m@, classes, index - 1) >= image::matrix_left(
                    m@,
                    classes,
                    index as int,
                ));
                return None;
            }
        }
        previous = Some(left);
        index = index + 1;
    }
    Some(end)
}

/// Accepts exactly the well-formed single-kanji tables, and names the first
/// fault of any other.
pub(super) fn validate_single_kanji_table(table: &SingleKanji<'_>) -> (r: Result<(), Error>)
    requires
        table.view().shaped(),
    ensures
        match image::single_kanji_error(table.view()) {
            None => r is Ok,
            Some(e) => r == Err::<(), Error>(e),
        },
{
    let ghost t = table.view();
    if table.index_count == 0 || table.char_count == 0 {
        return Err(Error::BadTable(image_format::TAG_SINGLE_KANJI_INDEX));
    }
    let mut record: usize = 0;
    while record < table.index_count
        invariant
            t == table.view(),
            t.shaped(),
            record <= table.index_count,
            t.index_count > 0 && t.char_count > 0,
            image::single_kanji_index_error(t, 0) == image::single_kanji_index_error(
                t,
                record as int,
            ),
            forall|i: int|
                0 <= i < record ==> image::single_kanji_record_error(t, i) is None,
        decreases table.index_count - record,
    {
        assert(image::single_kanji_index_error(t, record as int) == image::first(
            image::single_kanji_record_error(t, record as int),
            image::single_kanji_index_error(t, record + 1),
        ));
        match validate_single_kanji_record(table, record) {
            Ok(()) => {},
            Err(e) => {
                return Err(e);
            },
        }
        record = record + 1;
    }
    let mut scalar: usize = 0;
    while scalar < table.char_count
        invariant
            t == table.view(),
            t.shaped(),
            t.index_count > 0 && t.char_count > 0,
            image::single_kanji_index_error(t, 0) is None,
            scalar <= table.char_count,
            forall|i: int|
                0 <= i < scalar ==> strings::is_scalar_value(#[trigger] t.scalar(i)),
        decreases table.char_count - scalar,
    {
        assert(table.chars.len() == table.chars@.len());
        let value = raw::read_u32(table.chars, scalar * image_format::SINGLE_KANJI_CHAR_LEN);
        let known = match value {
            Some(value) => strings::char_from_u32(value).is_some(),
            None => false,
        };
        if !known {
            assert(!strings::is_scalar_value(t.scalar(scalar as int)));
            return Err(Error::BadTable(image_format::TAG_SINGLE_KANJI_CHARS));
        }
        scalar = scalar + 1;
    }
    let mut record: usize = 0;
    while record < table.variant_count
        invariant
            t == table.view(),
            t.shaped(),
            t.index_count > 0 && t.char_count > 0,
            image::single_kanji_index_error(t, 0) is None,
            forall|i: int|
                0 <= i < t.char_count ==> strings::is_scalar_value(#[trigger] t.scalar(i)),
            record <= table.variant_count,
            forall|i: int| 0 <= i < record ==> #[trigger] t.variant_ok(i),
        decreases table.variant_count - record,
    {
        if !validate_single_kanji_variant(table, record) {
            return Err(Error::BadTable(image_format::TAG_SINGLE_KANJI_VARIANTS));
        }
        record = record + 1;
    }
    Ok(())
}

/// The fault of one index record; those before it have none.
fn validate_single_kanji_record(table: &SingleKanji<'_>, record: usize) -> (r: Result<(), Error>)
    requires
        table.view().shaped(),
        record < table.index_count,
        forall|i: int|
            0 <= i < record ==> image::single_kanji_record_error(table.view(), i) is None,
    ensures
        match image::single_kanji_record_error(table.view(), record as int) {
            None => r is Ok,
            Some(e) => r == Err::<(), Error>(e),
        },
{
    let ghost t = table.view();
    let bad_index = Error::BadTable(image_format::TAG_SINGLE_KANJI_INDEX);
    let bad_readings = Error::BadTable(image_format::TAG_SINGLE_KANJI_READINGS);
    assert(table.index.len() == table.index@.len());
    let at: usize = record * image_format::SINGLE_KANJI_INDEX_LEN;
    let (Some(reading_offset), Some(char_start), Some(reading_len), Some(chars)) = (
        raw::read_u32(table.index, at),
        raw::read_u32(table.index, at + 4),
        raw::read_u16(table.index, at + 8),
        raw::read_u16(table.index, at + 10),
    ) else {
        return Err(bad_index);
    };
    if reading_len == 0 || chars == 0 {
        return Err(bad_index);
    }
    let start: usize = reading_offset as usize;
    let Some(end) = start.checked_add(reading_len as usize) else {
        return Err(bad_index);
    };
    if end > table.readings.len() {
        return Err(bad_readings);
    }
    let reading: &[u8] = vstd::slice::slice_subrange(table.readings, start, end);
    if strings::text_from_utf8(reading).is_none() {
        return Err(bad_readings);
    }
    if record > 0 {
        assert(image::single_kanji_record_error(t, record - 1) is None);
        let earlier: &[u8] = single_kanji_reading(table, record - 1);
        let (less, _) = raw::order_bytes(earlier, reading);
        if !less {
            return Err(bad_index);
        }
    }
    if char_start as u64 + chars as u64 > table.char_count as u64 {
        return Err(bad_index);
    }
    Ok(())
}

/// The reading of an index record that has no fault.
pub(super) fn single_kanji_reading<'b>(table: &SingleKanji<'b>, record: usize) -> (r: &'b [u8])
    requires
        table.view().shaped(),
        record < table.index_count,
        image::single_kanji_record_error(table.view(), record as int) is None,
    ensures
        r@ == table.view().reading(record as int),
{
    assert(table.index.len() == table.index@.len());
    let at: usize = record * image_format::SINGLE_KANJI_INDEX_LEN;
    match (raw::read_u32(table.index, at), raw::read_u16(table.index, at + 8)) {
        (Some(offset), Some(len)) => vstd::slice::slice_subrange(
            table.readings,
            offset as usize,
            offset as usize + len as usize,
        ),
        _ => table.readings,
    }
}

/// Whether one variant record is well formed; those before it are.
fn validate_single_kanji_variant(table: &SingleKanji<'_>, record: usize) -> (r: bool)
    requires
        table.view().shaped(),
        record < table.variant_count,
    ensures
        r == table.view().variant_ok(record as int),
{
    let v: &[u8] = table.variants;
    assert(v.len() == v@.len());
    let at: usize = record * image_format::SINGLE_KANJI_VARIANT_LEN;
    let (Some(variant), Some(original)) = (raw::read_u32(v, at), raw::read_u32(v, at + 4)) else {
        return false;
    };
    if strings::char_from_u32(variant).is_none() || strings::char_from_u32(original).is_none()
        || SingleKanjiVariantKind::from_code(v[at + 8]).is_none() || v[at + 9] != 0 || v[at + 10]
        != 0 || v[at + 11] != 0 {
        return false;
    }
    if record > 0 {
        match raw::read_u32(v, at - image_format::SINGLE_KANJI_VARIANT_LEN) {
            Some(earlier) => {
                return earlier < variant;
            },
            None => {
                return false;
            },
        }
    }
    true
}

/// Whether an offsets table holds `count` strictly ascending offsets into
/// `data`.
fn validate_offsets(offsets: &[u8], count: usize, data: &[u8]) -> (r: bool)
    ensures
        r == image::offsets_ok(offsets@, count as int, data@),
{
    assert(offsets.len() == offsets@.len());
    let mut previous: Option<usize> = None;
    let mut index: usize = 0;
    while index < count
        invariant
            index <= count,
            4 * index <= offsets@.len(),
            offsets.len() == offsets@.len(),
            previous is None <==> index == 0,
            previous matches Some(p) ==> p == image::offset(offsets@, index - 1),
            forall|i: int| 0 <= i < index ==> #[trigger] image::offset(offsets@, i) < data@.len(),
            forall|i: int, j: int|
                0 <= i < j < index ==> #[trigger] image::offset(offsets@, i)
                    < #[trigger] image::offset(offsets@, j),
        decreases count - index,
    {
        let Some(offset) = raw::read_offset(offsets, index) else {
            return false;
        };
        assert(offset == image::offset(offsets@, index as int));
        if offset >= data.len() {
            return false;
        }
        if let Some(before) = previous {
            if before >= offset {
                assert(image::offset(offsets@, index - 1) >= image::offset(
                    offsets@,
                    index as int,
                ));
                return false;
            }
        }
        previous = Some(offset);
        index = index + 1;
    }
    true
}

/// Node runs take at least one bit each.
proof fn lemma_louds_ascends(v: image::ImageView, i: int, j: int)
    requires
        0 <= i <= j,
    ensures
        v.louds_at(i) + (j - i) <= v.louds_at(j),
    decreases j - i,
{
    if i < j {
        lemma_louds_ascends(v, i, j - 1);
    }
}

impl<'a> Dictionary<'a> {
    /// Accepts exactly the well-formed tries.
    fn validate_tree(&self) -> (r: bool)
        requires
            self@.shaped(),
        ensures
            r == self@.tree_ok(),
    {
        let ghost v = self@;
        if self.louds_bits as u64 != 2 * (self.node_count as u64) - 1 {
            return false;
        }
        match self.label(0) {
            Ok(label) => {
                if label as u32 != 0 {
                    return false;
                }
            },
            Err(_) => {
                assert(!v.node_ok(0));
                return false;
            },
        }
        let mut bit: usize = 0;
        let mut index: usize = 0;
        while index < self.node_count
            invariant
                v == self@,
                v.shaped(),
                v.louds_bits == 2 * v.node_count - 1,
                v.label_value(0) == 0,
                index <= self.node_count,
                bit == v.louds_at(index as int),
                bit <= v.louds_bits,
                forall|i: int| 0 <= i < index ==> #[trigger] v.node_ok(i),
                forall|i: int| 0 <= i < index ==> #[trigger] v.louds_ok(i),
            decreases self.node_count - index,
        {
            if !self.validate_node(index) {
                return false;
            }
            let Ok(node) = self.node(index) else {
                return false;
            };
            proof {
                lemma_louds_ascends(v, index + 1, v.node_count);
            }
            let mut k: usize = 0;
            while k < node.child_count
                invariant
                    v == self@,
                    v.shaped(),
                    index < v.node_count,
                    v.louds_at(index + 1) <= v.louds_at(v.node_count),
                    node.child_count == v.child_count(index as int),
                    k <= node.child_count,
                    bit == v.louds_at(index as int) + k,
                    bit <= v.louds_bits,
                    forall|p: int|
                        v.louds_at(index as int) <= p < bit ==> #[trigger] raw::bit(v.louds, p),
                decreases node.child_count - k,
            {
                match self.louds_bit(bit) {
                    Ok(true) => {},
                    Ok(false) => {
                        assert(!v.louds_ok(index as int));
                        return false;
                    },
                    Err(_) => {
                        return false;
                    },
                }
                bit = bit + 1;
                k = k + 1;
            }
            match self.louds_bit(bit) {
                Ok(false) => {},
                Ok(true) => {
                    assert(!v.louds_ok(index as int));
                    return false;
                },
                Err(_) => {
                    return false;
                },
            }
            assert(v.louds_ok(index as int));
            bit = bit + 1;
            index = index + 1;
        }
        if bit != self.louds_bits {
            return false;
        }
        let mut padding: usize = self.louds_bits;
        while padding < self.louds.len() * 8
            invariant
                v == self@,
                v.shaped(),
                v.louds_bits <= padding,
                self.louds@.len() * 8 <= usize::MAX,
                forall|p: int| v.louds_bits <= p < padding ==> !#[trigger] raw::bit(v.louds, p),
            decreases self.louds@.len() * 8 - padding,
        {
            match raw::bit_at(self.louds, padding) {
                Some(false) => {},
                _ => {
                    assert(raw::bit(v.louds, padding as int));
                    return false;
                },
            }
            padding = padding + 1;
        }
        true
    }

    /// Whether the record of one node and the labels of its children are well
    /// formed.
    fn validate_node(&self, index: usize) -> (r: bool)
        requires
            self@.shaped(),
            index < self@.node_count,
        ensures
            r ==> self@.node_ok(index as int),
            !r ==> !self@.tree_ok(),
    {
        let ghost v = self@;
        assert(v.tree_ok() ==> v.node_ok(index as int));
        if self.label(index).is_err() {
            return false;
        }
        let Ok(node) = self.node(index) else {
            return false;
        };
        if node.value_start > self.entry_count || node.value_count > self.entry_count
            - node.value_start {
            return false;
        }
        if node.child_count == 0 {
            return node.first_child == 0;
        }
        if node.first_child == 0 || node.first_child > self.node_count || node.child_count
            > self.node_count - node.first_child {
            return false;
        }
        let mut previous: Option<char> = None;
        let mut child: usize = node.first_child;
        while child < node.first_child + node.child_count
            invariant
                v == self@,
                v.shaped(),
                index < v.node_count,
                v.tree_ok() ==> v.node_ok(index as int),
                node.first_child == v.first_child(index as int),
                node.child_count == v.child_count(index as int),
                node.first_child + node.child_count <= v.node_count,
                node.first_child <= child <= node.first_child + node.child_count,
                v.node_count <= usize::MAX,
                previous is None <==> child == node.first_child,
                previous matches Some(c) ==> c as u32 == v.label_value(child - 1),
                forall|i: int|
                    node.first_child <= i < child ==> strings::is_scalar_value(
                        #[trigger] v.label_value(i),
                    ),
                forall|j: int, k: int|
                    node.first_child <= j < k < child ==> #[trigger] v.label_value(j)
                        < #[trigger] v.label_value(k),
            decreases node.first_child + node.child_count - child,
        {
            let label = match self.label(child) {
                Ok(label) => label,
                Err(_) => {
                    assert(!v.node_ok(child as int));
                    return false;
                },
            };
            if let Some(before) = previous {
                if before as u32 >= label as u32 {
                    assert(v.label_value(child - 1) >= v.label_value(child as int));
                    return false;
                }
            }
            previous = Some(label);
            child = child + 1;
        }
        true
    }
}

/// Offsets that ascend strictly locate every record.
proof fn lemma_records_located(offsets: Seq<u8>, count: int, data: Seq<u8>)
    requires
        image::offsets_ok(offsets, count, data),
    ensures
        forall|i: int|
            0 <= i < count ==> (#[trigger] image::text_record(offsets, count, data, i)) is Some,
{
    assert forall|i: int| 0 <= i < count implies (#[trigger] image::text_record(
        offsets,
        count,
        data,
        i,
    )) is Some by {
        assert(image::offset(offsets, i) < data.len());
        if i + 1 < count {
            assert(image::offset(offsets, i) < image::offset(offsets, i + 1));
            assert(image::offset(offsets, i + 1) < data.len());
        }
    }
}

impl<'a> Dictionary<'a> {
    /// The first fault of the annotations of the second version.
    fn validate_v2_annotations(&self) -> (r: Result<(), Error>)
        requires
            self@.shaped(),
            image::offsets_ok(
                self@.annotation_offsets,
                self@.annotation_count,
                self@.annotations,
            ),
        ensures
            match self@.annotation_text_error() {
                None => r is Ok,
                Some(e) => r == Err::<(), Error>(e),
            },
    {
        let ghost v = self@;
        if self.annotation_count == 0 {
            if self.annotation_offsets.len() != 0 || self.annotations.len() != 0 {
                return Err(Error::BadTable(image_format::TAG_ANNOTATIONS));
            }
            return Ok(());
        }
        match raw::read_offset(self.annotation_offsets, 0) {
            Some(0) => {},
            _ => {
                return Err(Error::BadTable(image_format::TAG_ANNOTATION_OFFSETS));
            },
        }
        proof {
            lemma_records_located(v.annotation_offsets, v.annotation_count, v.annotations);
        }
        let mut index: usize = 0;
        while index < self.annotation_count
            invariant
                v == self@,
                v.annotation_count > 0,
                image::offset(v.annotation_offsets, 0) == 0,
                index <= self.annotation_count,
                forall|i: int|
                    0 <= i < v.annotation_count ==> (#[trigger] image::text_record(
                        v.annotation_offsets,
                        v.annotation_count,
                        v.annotations,
                        i,
                    )) is Some,
                forall|i: int|
                    0 <= i < index ==> valid_utf8(
                        (#[trigger] image::text_record(
                            v.annotation_offsets,
                            v.annotation_count,
                            v.annotations,
                            i,
                        ))->0,
                    ),
            decreases self.annotation_count - index,
        {
            let ghost located = image::text_record(
                v.annotation_offsets,
                v.annotation_count,
                v.annotations,
                index as int,
            );
            assert(located is Some);
            let record = match text_record(
                self.annotation_offsets,
                self.annotation_count,
                self.annotations,
                index,
            ) {
                Ok(record) => record,
                Err(e) => {
                    return Err(e);
                },
            };
            if strings::text_from_utf8(record).is_none() {
                assert(!valid_utf8(located->0));
                return Err(Error::BadUtf8);
            }
            index = index + 1;
        }
        Ok(())
    }

    /// Whether the annotation index is well formed.
    fn validate_v2_annotation_index(&self) -> (r: bool)
        requires
            self@.shaped(),
            self@.v2,
        ensures
            r == self@.annotation_index_ok(),
    {
        let ghost v = self@;
        let Some(index) = self.annotation_index else {
            return false;
        };
        let mut previous: Option<usize> = None;
        let mut record: usize = 0;
        while record < self.annotation_index_count
            invariant
                v == self@,
                v.shaped(),
                v.v2,
                v.annotation_index == Some(index@),
                record <= self.annotation_index_count,
                previous is None <==> record == 0,
                previous matches Some(p) ==> p == v.indexed_entry(record - 1),
                forall|i: int|
                    0 <= i < record ==> (#[trigger] v.indexed_entry(i)) < v.entry_count
                        && v.indexed_annotation(i) < v.annotation_count,
                forall|i: int, j: int|
                    0 <= i < j < record ==> #[trigger] v.indexed_entry(i)
                        < #[trigger] v.indexed_entry(j),
            decreases self.annotation_index_count - record,
        {
            assert(index.len() == index@.len());
            let at: usize = record * image_format::ANNOTATION_INDEX_LEN_V2;
            let (Some(entry), Some(annotation)) = (
                raw::read_u32(index, at),
                raw::read_u32(index, at + 4),
            ) else {
                return false;
            };
            let (entry, annotation): (usize, usize) = (entry as usize, annotation as usize);
            assert(entry == v.indexed_entry(record as int));
            assert(annotation == v.indexed_annotation(record as int));
            if entry >= self.entry_count || annotation >= self.annotation_count {
                return false;
            }
            if let Some(before) = previous {
                if before >= entry {
                    assert(v.indexed_entry(record - 1) >= v.indexed_entry(record as int));
                    return false;
                }
            }
            previous = Some(entry);
            record = record + 1;
        }
        true
    }

    /// Whether every entry record is well formed.
    fn validate_entries(&self) -> (r: bool)
        requires
            self@.shaped(),
        ensures
            r == (forall|i: int| 0 <= i < self@.entry_count ==> #[trigger] self@.entry_ok(i)),
    {
        let ghost v = self@;
        let mut index: usize = 0;
        while index < self.entry_count
            invariant
                v == self@,
                v.shaped(),
                index <= self.entry_count,
                forall|i: int| 0 <= i < index ==> #[trigger] v.entry_ok(i),
            decreases self.entry_count - index,
        {
            let Ok(entry) = self.entry(index) else {
                assert(!v.entry_ok(index as int));
                return false;
            };
            let wrong_annotation = match self.version {
                ImageVersion::V1 => entry.annotation_locator != image_format::NO_ANNOTATION
                    && entry.annotation_locator as usize >= self.annotation_count,
                ImageVersion::V2 => false,
            };
            if entry.surface_id as usize >= self.surface_count || entry.left_id as usize
                >= self.class_count || entry.right_id as usize >= self.class_count
                || wrong_annotation {
                assert(!v.entry_ok(index as int));
                return false;
            }
            index = index + 1;
        }
        true
    }

    /// The first fault of the records of the tables.
    pub(super) fn validate_tables(&self) -> (r: Result<(), Error>)
        requires
            self@.shaped(),
        ensures
            match self@.record_error() {
                None => r is Ok,
                Some(e) => r == Err::<(), Error>(e),
            },
    {
        if !self.validate_tree() {
            return Err(Error::BadTree);
        }
        match self.version {
            ImageVersion::V1 => {
                if !validate_offsets(self.surface_offsets, self.surface_count, self.surfaces) {
                    return Err(Error::BadTable(image_format::TAG_SURFACES));
                }
            },
            ImageVersion::V2 => {
                match self.validate_v2_surfaces() {
                    Ok(()) => {},
                    Err(e) => {
                        return Err(e);
                    },
                }
            },
        }
        if let Some(details) = self.details {
            match details.validate(self.entry_count) {
                Ok(()) => {},
                Err(e) => {
                    return Err(e);
                },
            }
        }
        if !validate_offsets(self.annotation_offsets, self.annotation_count, self.annotations) {
            return Err(Error::BadTable(image_format::TAG_ANNOTATIONS));
        }
        if self.version == ImageVersion::V2 {
            match self.validate_v2_annotations() {
                Ok(()) => {},
                Err(e) => {
                    return Err(e);
                },
            }
            if !self.validate_v2_annotation_index() {
                return Err(Error::BadTable(image_format::TAG_ANNOTATION_INDEX));
            }
        }
        if !self.validate_entries() {
            return Err(Error::BadEntry);
        }
        Ok(())
    }
}

impl<'a> Details<'a> {
    /// The first fault of the details.
    fn validate(&self, entry_count: usize) -> (r: Result<(), Error>)
        requires
            self.view().shaped(),
        ensures
            match self.view().details_error(entry_count as int) {
                None => r is Ok,
                Some(e) => r == Err::<(), Error>(e),
            },
    {
        if !validate_offsets(self.text_offsets, self.text_count, self.text) {
            return Err(Error::BadTable(image_format::TAG_DETAIL_TEXT));
        }
        if !self.validate_index(entry_count) {
            return Err(Error::BadTable(image_format::TAG_DETAIL_INDEX));
        }
        match self.validate_records() {
            Ok(()) => self.validate_relations(),
            Err(e) => Err(e),
        }
    }

    /// Whether the index is well formed.
    fn validate_index(&self, entry_count: usize) -> (r: bool)
        requires
            self.view().shaped(),
        ensures
            r == self.view().index_ok(entry_count as int),
    {
        let ghost v = self.view();
        let mut previous: Option<usize> = None;
        let mut index: usize = 0;
        while index < self.index_count
            invariant
                v == self.view(),
                v.shaped(),
                index <= self.index_count,
                previous is None <==> index == 0,
                previous matches Some(p) ==> p == v.indexed_entry(index - 1),
                forall|i: int|
                    0 <= i < index ==> (#[trigger] v.indexed_entry(i)) < entry_count
                        && v.indexed_record(i) < v.record_count,
                forall|i: int, j: int|
                    0 <= i < j < index ==> #[trigger] v.indexed_entry(i)
                        < #[trigger] v.indexed_entry(j),
            decreases self.index_count - index,
        {
            assert(self.index.len() == self.index@.len());
            let at: usize = index * image_format::DETAIL_INDEX_LEN;
            let (Some(entry), Some(record)) = (
                raw::read_u32(self.index, at),
                raw::read_u32(self.index, at + 4),
            ) else {
                return false;
            };
            let (entry, record): (usize, usize) = (entry as usize, record as usize);
            assert(entry == v.indexed_entry(index as int));
            assert(record == v.indexed_record(index as int));
            if entry >= entry_count || record >= self.record_count {
                return false;
            }
            if let Some(before) = previous {
                if before >= entry {
                    assert(v.indexed_entry(index - 1) >= v.indexed_entry(index as int));
                    return false;
                }
            }
            previous = Some(entry);
            index = index + 1;
        }
        true
    }

    /// The first fault of the detail records.
    fn validate_records(&self) -> (r: Result<(), Error>)
        requires
            self.view().shaped(),
        ensures
            match self.view().records_error(0) {
                None => r is Ok,
                Some(e) => r == Err::<(), Error>(e),
            },
    {
        let ghost v = self.view();
        let mut index: usize = 0;
        while index < self.record_count
            invariant
                v == self.view(),
                v.shaped(),
                index <= self.record_count,
                v.records_error(0) == v.records_error(index as int),
            decreases self.record_count - index,
        {
            assert(self.records.len() == self.records@.len());
            let at: usize = index * image_format::DETAIL_RECORD_LEN;
            let bad = Error::BadTable(image_format::TAG_DETAIL_RECORDS);
            assert(v.records_error(index as int) == image::first(
                v.record_fault(index as int),
                v.records_error(index + 1),
            ));
            let (Some(description), Some(display), Some(start), Some(count)) = (
                raw::read_u32(self.records, at),
                raw::read_u32(self.records, at + 4),
                raw::read_u32(self.records, at + 8),
                raw::read_u32(self.records, at + 12),
            ) else {
                return Err(bad);
            };
            let (description, display): (usize, usize) = (description as usize, display as usize);
            if description >= self.text_count || display >= self.text_count || start as u64
                + count as u64 > self.relation_count as u64 {
                return Err(bad);
            }
            match self.located_text(description) {
                Ok(_) => {},
                Err(e) => {
                    return Err(e);
                },
            }
            match self.located_text(display) {
                Ok(_) => {},
                Err(e) => {
                    return Err(e);
                },
            }
            index = index + 1;
        }
        Ok(())
    }

    /// The first fault of the relations.
    fn validate_relations(&self) -> (r: Result<(), Error>)
        requires
            self.view().shaped(),
        ensures
            match self.view().relations_error(0) {
                None => r is Ok,
                Some(e) => r == Err::<(), Error>(e),
            },
    {
        let ghost v = self.view();
        let mut index: usize = 0;
        while index < self.relation_count
            invariant
                v == self.view(),
                v.shaped(),
                index <= self.relation_count,
                v.relations_error(0) == v.relations_error(index as int),
            decreases self.relation_count - index,
        {
            assert(self.relations.len() == self.relations@.len());
            let at: usize = index * image_format::DETAIL_RELATION_LEN;
            let bad = Error::BadTable(image_format::TAG_DETAIL_RELATIONS);
            assert(v.relations_error(index as int) == image::first(
                v.relation_fault(index as int),
                v.relations_error(index + 1),
            ));
            let b: &[u8] = self.relations;
            if b[at + 1] != 0 || b[at + 2] != 0 || b[at + 3] != 0
                || DetailRelationKind::from_byte(b[at]).is_none() {
                return Err(bad);
            }
            let Some(text) = raw::read_u32(b, at + 4) else {
                return Err(bad);
            };
            if text as usize >= self.text_count {
                return Err(bad);
            }
            match self.located_text(text as usize) {
                Ok(_) => {},
                Err(e) => {
                    return Err(e);
                },
            }
            index = index + 1;
        }
        Ok(())
    }

    /// One text of the details.
    pub(super) fn located_text(&self, index: usize) -> (r: Result<&'a str, Error>)
        ensures
            match self.view().text_error(index as int) {
                None => r matches Ok(s) && s@ == decode_utf8(
                    self.view().text_bytes(index as int)->0,
                ),
                Some(e) => r matches Err(f) && f == e,
            },
    {
        match text_record(self.text_offsets, self.text_count, self.text, index) {
            Ok(record) => match strings::text_from_utf8(record) {
                Some(s) => Ok(s),
                None => Err(Error::BadUtf8),
            },
            Err(e) => Err(e),
        }
    }
}

} // verus!
