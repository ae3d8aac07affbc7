//! Where everything stands in an image: what was written into its records is what is
//! read out of them.

use super::image;
use super::image::ImageView;
use super::Entry;
use vstd::prelude::*;

verus! {

/// A number below 65536 in two bytes, the low one first.
pub open spec fn two_bytes(n: int) -> Seq<u8> {
    seq![(n % 256) as u8, (n / 256) as u8]
}

/// A number below 4294967296 in four bytes, the low one first.
pub open spec fn four_bytes(n: int) -> Seq<u8> {
    two_bytes(n % 65536) + two_bytes(n / 65536)
}

/// Whether bytes stand in a table at `at`.
pub open spec fn stands(table: Seq<u8>, at: int, bytes: Seq<u8>) -> bool {
    0 <= at && at + bytes.len() <= table.len() && forall|i: int|
        0 <= i < bytes.len() ==> table[at + i] == #[trigger] bytes[i]
}

/// What stands in two bytes is read out of them.
pub proof fn lemma_two(table: Seq<u8>, at: int, n: int)
    requires
        stands(table, at, two_bytes(n)),
        0 <= n < 65536,
    ensures
        table[at] + 0x100 * table[at + 1] == n,
{
    let b = two_bytes(n);
    assert(table[at + 0] == b[0]);
    assert(table[at + 1] == b[1]);
}

/// Two bytes that are read as a number are those of the number.
pub proof fn lemma_two_back(table: Seq<u8>, at: int, n: int)
    requires
        0 <= at,
        at + 2 <= table.len(),
        table[at] + 0x100 * table[at + 1] == n,
    ensures
        stands(table, at, two_bytes(n)),
{
    let b = two_bytes(n);
    assert(b[0] == table[at + 0]);
    assert(b[1] == table[at + 1]);
}

/// What stands in four bytes is read out of them.
pub proof fn lemma_four(table: Seq<u8>, at: int, n: int)
    requires
        stands(table, at, four_bytes(n)),
        0 <= n < 0x1_0000_0000,
    ensures
        table[at] + 0x100 * table[at + 1] + 0x1_0000 * table[at + 2] + 0x100_0000 * table[at + 3]
            == n,
{
    let b = four_bytes(n);
    assert(table[at + 0] == b[0]);
    assert(table[at + 1] == b[1]);
    assert(table[at + 2] == b[2]);
    assert(table[at + 3] == b[3]);
    let low = n % 65536;
    let high = n / 65536;
    assert(low == low % 256 + 256 * (low / 256));
    assert(high == high % 256 + 256 * (high / 256));
}

/// Two parts that stand one behind the other stand by themselves.
pub proof fn lemma_parts(table: Seq<u8>, at: int, a: Seq<u8>, b: Seq<u8>)
    requires
        stands(table, at, a + b),
    ensures
        stands(table, at, a),
        stands(table, at + a.len(), b),
{
    let whole = a + b;
    assert forall|i: int| 0 <= i < a.len() implies table[at + i] == #[trigger] a[i] by {
        assert(whole[i] == a[i]);
    }
    assert forall|i: int| 0 <= i < b.len() implies table[at + a.len() + i] == #[trigger] b[i] by {
        assert(whole[a.len() + i] == b[i]);
    }
}

// ---------------------------------------------------------------------------
// The connection matrix.

/// Where the row descriptors of a matrix stand: behind a header of sixteen bytes and a
/// cost of two bytes for each class, at the next multiple of four.
pub open spec fn descriptors_at(classes: int) -> int {
    if classes % 2 == 0 {
        16 + 2 * classes
    } else {
        18 + 2 * classes
    }
}

/// Whether a row of the matrix has `count` overrides from the slot `start` on.
pub open spec fn row_stands(v: ImageView, row: int, start: int, count: int) -> bool {
    &&& 0 <= row < v.class_count
    &&& 0 <= start < 0x1_0000_0000
    &&& 0 <= count < 0x1_0000_0000
    &&& stands(
        v.matrix,
        descriptors_at(v.class_count) + 8 * row,
        four_bytes(start) + four_bytes(count),
    )
}

/// Whether a slot of the matrix overrides the cost of a column.
pub open spec fn override_stands(v: ImageView, slot: int, column: int, cost: int) -> bool {
    &&& 0 <= column < 65536
    &&& 0 <= cost < 65536
    &&& stands(
        v.matrix,
        descriptors_at(v.class_count) + 8 * v.class_count + 4 * slot,
        two_bytes(column) + two_bytes(cost),
    )
}

/// The row descriptors and the overrides stand where the matrix has them.
proof fn lemma_places(classes: int)
    requires
        0 <= classes,
    ensures
        image::matrix_rows_at(classes) == descriptors_at(classes),
        image::matrix_rows_end(classes) == descriptors_at(classes) + 8 * classes,
{
    let half = classes / 2;
    assert(classes == 2 * half || classes == 2 * half + 1);
}

/// A row of a valid image is in order, and its overrides stand in the matrix.
proof fn lemma_valid_row(v: ImageView, row: int)
    requires
        v.valid(),
        0 <= row < v.class_count,
    ensures
        image::matrix_row_ok(v.matrix, v.class_count, row),
        image::matrix_rows_end(v.class_count) + 4 * image::matrix_end(v.matrix, v.class_count, row)
            <= v.matrix.len(),
        1 <= v.class_count,
{
    reveal(ImageView::valid);
    assert(image::matrix_row_ok(v.matrix, v.class_count, row));
}

proof fn lemma_row(v: ImageView, row: int, start: int, count: int)
    requires
        v.valid(),
        row_stands(v, row, start, count),
    ensures
        image::matrix_start(v.matrix, v.class_count, row) == start,
        image::matrix_end(v.matrix, v.class_count, row) == start + count,
        image::matrix_row_ok(v.matrix, v.class_count, row),
        image::matrix_rows_end(v.class_count) == descriptors_at(v.class_count) + 8 * v.class_count,
        descriptors_at(v.class_count) + 8 * v.class_count + 4 * (start + count) <= v.matrix.len(),
{
    let at = descriptors_at(v.class_count) + 8 * row;
    lemma_places(v.class_count);
    lemma_parts(v.matrix, at, four_bytes(start), four_bytes(count));
    lemma_four(v.matrix, at, start);
    lemma_four(v.matrix, at + 4, count);
    lemma_valid_row(v, row);
}

proof fn lemma_override(v: ImageView, slot: int, column: int, cost: int)
    requires
        0 <= v.class_count,
        override_stands(v, slot, column, cost),
    ensures
        image::matrix_left(v.matrix, v.class_count, slot) == column,
        image::matrix_cost(v.matrix, v.class_count, slot) == cost,
{
    let at = descriptors_at(v.class_count) + 8 * v.class_count + 4 * slot;
    lemma_places(v.class_count);
    lemma_parts(v.matrix, at, two_bytes(column), two_bytes(cost));
    lemma_two(v.matrix, at, column);
    lemma_two(v.matrix, at + 2, cost);
}

/// The cost of a pair of classes is the one that stands with the column among the
/// overrides of the row.
pub proof fn overridden_costs_read_back(
    v: ImageView,
    row: int,
    start: int,
    count: int,
    slot: int,
    column: int,
    cost: int,
)
    requires
        v.valid(),
        row_stands(v, row, start, count),
        start <= slot < start + count,
        override_stands(v, slot, column, cost),
    ensures
        v.connection(row, column) == cost,
{
    lemma_row(v, row, start, count);
    lemma_override(v, slot, column, cost);
    let found = v.find_override(row, column)->Some_0;
    assert(v.find_override(row, column) is Some);
    assert(image::matrix_left(v.matrix, v.class_count, found) == column);
    if found < slot {
        assert(image::matrix_left(v.matrix, v.class_count, found) < image::matrix_left(
            v.matrix,
            v.class_count,
            slot,
        ));
    } else if slot < found {
        assert(image::matrix_left(v.matrix, v.class_count, slot) < image::matrix_left(
            v.matrix,
            v.class_count,
            found,
        ));
    }
}

/// Where no override of the row is for the column, the cost is the one that stands for
/// the row itself.
pub proof fn common_costs_read_back(
    v: ImageView,
    row: int,
    start: int,
    count: int,
    column: int,
    cost: int,
)
    requires
        v.valid(),
        row_stands(v, row, start, count),
        0 <= column < 65536,
        0 <= cost < 65536,
        stands(v.matrix, 16 + 2 * row, two_bytes(cost)),
        forall|slot: int|
            start <= slot < start + count ==> !#[trigger] stands(
                v.matrix,
                descriptors_at(v.class_count) + 8 * v.class_count + 4 * slot,
                two_bytes(column),
            ),
    ensures
        v.connection(row, column) == cost,
{
    lemma_row(v, row, start, count);
    lemma_two(v.matrix, 16 + 2 * row, cost);
    if v.find_override(row, column) is Some {
        let k = v.find_override(row, column)->Some_0;
        assert(image::matrix_left(v.matrix, v.class_count, k) == column);
        lemma_two_back(
            v.matrix,
            descriptors_at(v.class_count) + 8 * v.class_count + 4 * k,
            column,
        );
    }
}

// ---------------------------------------------------------------------------
// Boundaries.

/// The bits of a boundary row: a bit for each class in whole bytes, the low bit first.
pub open spec fn boundary_stands(rows: Seq<u8>, classes: int, right: int, left: int) -> bool {
    let row_bytes = if classes % 8 == 0 {
        classes / 8
    } else {
        classes / 8 + 1
    };
    rows[right * row_bytes + left / 8] as int / power_of_two(left % 8) % 2 == 1
}

/// Two to the power of up to seven.
pub open spec fn power_of_two(k: int) -> int {
    if k <= 0 {
        1
    } else if k == 1 {
        2
    } else if k == 2 {
        4
    } else if k == 3 {
        8
    } else if k == 4 {
        16
    } else if k == 5 {
        32
    } else if k == 6 {
        64
    } else {
        128
    }
}

proof fn lemma_bit(byte: u8, k: int)
    requires
        0 <= k < 8,
    ensures
        super::raw::byte_bit(byte, k) == (byte as int / power_of_two(k) % 2 == 1),
{
    let b = byte;
    let shift = k as u8;
    assert(shift == 0 ==> ((b & (1u8 << shift)) != 0) == (b / 1 % 2 == 1)) by (bit_vector);
    assert(shift == 1 ==> ((b & (1u8 << shift)) != 0) == (b / 2 % 2 == 1)) by (bit_vector);
    assert(shift == 2 ==> ((b & (1u8 << shift)) != 0) == (b / 4 % 2 == 1)) by (bit_vector);
    assert(shift == 3 ==> ((b & (1u8 << shift)) != 0) == (b / 8 % 2 == 1)) by (bit_vector);
    assert(shift == 4 ==> ((b & (1u8 << shift)) != 0) == (b / 16 % 2 == 1)) by (bit_vector);
    assert(shift == 5 ==> ((b & (1u8 << shift)) != 0) == (b / 32 % 2 == 1)) by (bit_vector);
    assert(shift == 6 ==> ((b & (1u8 << shift)) != 0) == (b / 64 % 2 == 1)) by (bit_vector);
    assert(shift == 7 ==> ((b & (1u8 << shift)) != 0) == (b / 128 % 2 == 1)) by (bit_vector);
}

/// A boundary separates two classes where the bit of the second stands in the row of the
/// first.
pub proof fn boundaries_read_back(rows: Seq<u8>, classes: int, right: int, left: int)
    requires
        0 <= right < classes,
        0 <= left < classes,
    ensures
        image::boundary_bit(rows, classes, right, left) == boundary_stands(
            rows,
            classes,
            right,
            left,
        ),
{
    assert((classes + 7) / 8 == if classes % 8 == 0 {
        classes / 8
    } else {
        classes / 8 + 1
    });
    lemma_bit(rows[right * image::boundary_row_bytes(classes) + left / 8], left % 8);
}

// ---------------------------------------------------------------------------
// Entries.

/// A cost in four bytes, as a two's complement number.
pub open spec fn signed_bytes(n: int) -> Seq<u8> {
    if n < 0 {
        four_bytes(n + 0x1_0000_0000)
    } else {
        four_bytes(n)
    }
}

/// The record of an entry of the first version.
pub open spec fn entry_record(e: Entry) -> Seq<u8> {
    four_bytes(e.surface_id as int) + two_bytes(e.left_id as int) + two_bytes(e.right_id as int)
        + signed_bytes(e.word_cost as int) + signed_bytes(e.prediction_cost as int) + two_bytes(
        e.flags.0 as int,
    ) + two_bytes(0) + four_bytes(e.annotation_locator as int)
}

/// The record of an entry of the second version. A cost for predictions that is not there
/// is the largest number.
pub open spec fn short_entry_record(e: Entry) -> Seq<u8> {
    four_bytes(e.surface_id as int) + two_bytes(e.left_id as int) + two_bytes(e.right_id as int)
        + two_bytes(e.word_cost as int) + two_bytes(
        if e.prediction_cost == i32::MAX {
            65535
        } else {
            e.prediction_cost as int
        },
    ) + two_bytes(e.flags.0 as int) + two_bytes(0)
}

proof fn lemma_signed(table: Seq<u8>, at: int, n: int)
    requires
        stands(table, at, signed_bytes(n)),
        -0x8000_0000 <= n < 0x8000_0000,
    ensures
        super::raw::signed32(super::raw::le32(table, at)) == n,
{
    lemma_four(
        table,
        at,
        if n < 0 {
            n + 0x1_0000_0000
        } else {
            n
        },
    );
}

/// An entry of the first version reads back as it was written.
pub proof fn entries_read_back(v: ImageView, i: int, e: Entry)
    requires
        !v.v2,
        0 <= i,
        stands(v.entries, 24 * i, entry_record(e)),
    ensures
        v.entry(i) == e,
{
    let t = v.entries;
    let at = 24 * i;
    let p1 = four_bytes(e.surface_id as int);
    let p2 = two_bytes(e.left_id as int);
    let p3 = two_bytes(e.right_id as int);
    let p4 = signed_bytes(e.word_cost as int);
    let p5 = signed_bytes(e.prediction_cost as int);
    let p6 = two_bytes(e.flags.0 as int);
    let p7 = two_bytes(0);
    let p8 = four_bytes(e.annotation_locator as int);
    lemma_parts(t, at, p1 + p2 + p3 + p4 + p5 + p6 + p7, p8);
    lemma_parts(t, at, p1 + p2 + p3 + p4 + p5 + p6, p7);
    lemma_parts(t, at, p1 + p2 + p3 + p4 + p5, p6);
    lemma_parts(t, at, p1 + p2 + p3 + p4, p5);
    lemma_parts(t, at, p1 + p2 + p3, p4);
    lemma_parts(t, at, p1 + p2, p3);
    lemma_parts(t, at, p1, p2);
    lemma_four(t, at, e.surface_id as int);
    lemma_two(t, at + 4, e.left_id as int);
    lemma_two(t, at + 6, e.right_id as int);
    lemma_signed(t, at + 8, e.word_cost as int);
    lemma_signed(t, at + 12, e.prediction_cost as int);
    lemma_two(t, at + 16, e.flags.0 as int);
    lemma_four(t, at + 20, e.annotation_locator as int);
}

/// An entry of the second version reads back as it was written, and is found by its own
/// ordinal among the annotations.
pub proof fn short_entries_read_back(v: ImageView, i: int, e: Entry)
    requires
        v.v2,
        0 <= i < 0x1_0000_0000,
        0 <= e.word_cost < 65536,
        0 <= e.prediction_cost < 65535 || e.prediction_cost == i32::MAX,
        e.annotation_locator == i,
        stands(v.entries, 16 * i, short_entry_record(e)),
    ensures
        v.entry(i) == e,
{
    let t = v.entries;
    let at = 16 * i;
    let cost = if e.prediction_cost == i32::MAX {
        65535
    } else {
        e.prediction_cost as int
    };
    let p1 = four_bytes(e.surface_id as int);
    let p2 = two_bytes(e.left_id as int);
    let p3 = two_bytes(e.right_id as int);
    let p4 = two_bytes(e.word_cost as int);
    let p5 = two_bytes(cost);
    let p6 = two_bytes(e.flags.0 as int);
    let p7 = two_bytes(0);
    lemma_parts(t, at, p1 + p2 + p3 + p4 + p5 + p6, p7);
    lemma_parts(t, at, p1 + p2 + p3 + p4 + p5, p6);
    lemma_parts(t, at, p1 + p2 + p3 + p4, p5);
    lemma_parts(t, at, p1 + p2 + p3, p4);
    lemma_parts(t, at, p1 + p2, p3);
    lemma_parts(t, at, p1, p2);
    lemma_four(t, at, e.surface_id as int);
    lemma_two(t, at + 4, e.left_id as int);
    lemma_two(t, at + 6, e.right_id as int);
    lemma_two(t, at + 8, e.word_cost as int);
    lemma_two(t, at + 10, cost);
    lemma_two(t, at + 12, e.flags.0 as int);
}

// ---------------------------------------------------------------------------
// The trie.

/// The record of a node: its children, its entries, and in the second version its label.
pub open spec fn node_record(
    first_child: int,
    child_count: int,
    value_count: int,
    value_start: int,
    last: int,
) -> Seq<u8> {
    four_bytes(first_child) + two_bytes(child_count) + two_bytes(value_count) + four_bytes(
        value_start,
    ) + four_bytes(last)
}

/// A node reads back as it was written, with its label.
pub proof fn nodes_read_back(
    v: ImageView,
    i: int,
    first_child: int,
    child_count: int,
    value_count: int,
    value_start: int,
    label: char,
)
    requires
        0 <= i,
        0 <= first_child < 0x1_0000_0000,
        0 <= child_count < 65536,
        0 <= value_count < 65536,
        0 <= value_start < 0x1_0000_0000,
        stands(
            v.nodes,
            16 * i,
            node_record(
                first_child,
                child_count,
                value_count,
                value_start,
                if v.v2 {
                    label as int
                } else {
                    0
                },
            ),
        ),
        !v.v2 ==> stands(v.labels, 4 * i, four_bytes(label as int)),
    ensures
        v.first_child(i) == first_child,
        v.child_count(i) == child_count,
        v.value_count(i) == value_count,
        v.value_start(i) == value_start,
        v.label_value(i) == label as u32,
{
    let t = v.nodes;
    let at = 16 * i;
    let last: int = if v.v2 {
        label as int
    } else {
        0
    };
    let p1 = four_bytes(first_child);
    let p2 = two_bytes(child_count);
    let p3 = two_bytes(value_count);
    let p4 = four_bytes(value_start);
    let p5 = four_bytes(last);
    lemma_parts(t, at, p1 + p2 + p3 + p4, p5);
    lemma_parts(t, at, p1 + p2 + p3, p4);
    lemma_parts(t, at, p1 + p2, p3);
    lemma_parts(t, at, p1, p2);
    lemma_four(t, at, first_child);
    lemma_two(t, at + 4, child_count);
    lemma_two(t, at + 6, value_count);
    lemma_four(t, at + 8, value_start);
    lemma_four(t, at + 12, last);
    if !v.v2 {
        lemma_four(v.labels, 4 * i, label as int);
    }
}

/// The child of a node that stands with a label is the one that the label leads to.
pub proof fn children_are_found_by_their_labels(
    v: ImageView,
    reading: Seq<char>,
    node: int,
    k: int,
    label: char,
)
    requires
        v.valid(),
        v.node_for(reading) == Some(node),
        0 <= k < v.child_count(node),
        v.label_value(v.first_child(node) + k) == label as u32,
    ensures
        v.node_for(reading.push(label)) == Some(v.first_child(node) + k),
        v.node_for(Seq::<char>::empty()) == Some(0int),
{
    super::walk_laws::lemma_node_in_range(v, reading);
    super::walk_laws::lemma_child_by_label(v, node, k);
    super::walk_laws::lemma_label(label, v.label_value(v.first_child(node) + k));
    let longer = reading.push(label);
    assert(longer.drop_last() =~= reading);
    assert(longer.last() == label);
}

/// A prediction is an entry whose second flag is set, and that has a cost as one: the
/// highest number stands for none. A walk for everything passes every entry on.
pub proof fn predictions_are_flagged(entry: Entry)
    ensures
        ImageView::wanted(entry, true) == (entry.flags.0 as int / 2 % 2 == 1
            && entry.prediction_cost != 2147483647),
        ImageView::wanted(entry, false),
{
    let f = entry.flags.0;
    assert((f & 2 == 2) == (f / 2 % 2 == 1)) by (bit_vector);
}

} // verus!
