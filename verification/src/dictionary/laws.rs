//! What holds of every valid image.

use super::image;
use super::image::ImageView;
use super::image_format;
use super::model;
use super::raw;
use super::{EntryFlags, Error, PrefixMatch, SingleKanjiVariantKind};
use crate::strings;
use vstd::prelude::*;
#[allow(unused_imports)]
use vstd::utf8::*;

verus! {

/// A proper beginning of an image is never an image: it is too short for a header, or
/// its header names another length.
pub proof fn truncated_image_is_rejected(b: Seq<u8>, n: int)
    requires
        image::image_error(b) is None,
        0 <= n < b.len(),
    ensures
        image::image_error(b.take(n)) == Some(
            if n < image_format::HEADER_LEN {
                Error::Truncated
            } else {
                Error::BadHeader
            },
        ),
{
    let short = b.take(n);
    if n >= image_format::HEADER_LEN {
        lemma_same_header(b, short);
    }
}

/// An image with more bytes behind it is never an image: its header names another
/// length.
pub proof fn extended_image_is_rejected(b: Seq<u8>, more: Seq<u8>)
    requires
        image::image_error(b) is None,
        more.len() > 0,
    ensures
        image::image_error(b + more) == Some(Error::BadHeader),
{
    lemma_same_header(b, b + more);
}

/// What the header says is read from the header alone.
proof fn lemma_same_header(a: Seq<u8>, b: Seq<u8>)
    requires
        a.len() >= image_format::HEADER_LEN,
        b.len() >= image_format::HEADER_LEN,
        forall|i: int| 0 <= i < image_format::HEADER_LEN ==> a[i] == b[i],
    ensures
        a.take(8) == b.take(8),
        raw::le16(a, 8) == raw::le16(b, 8),
        raw::le32(a, 24) == raw::le32(b, 24),
{
    assert(a.take(8) =~= b.take(8));
}

/// Of the tables that the directory of an image names, no two have the same tag
/// and no two overlap, and each lies inside the image on a multiple of eight.
pub proof fn tables_are_distinct_and_disjoint(b: Seq<u8>, i: int, j: int)
    requires
        image::image_error(b) is None,
        0 <= i < j < image::table_count(b),
    ensures
        image::table_placed(b, i),
        image::table_placed(b, j),
        image::table_tag(b, i) != image::table_tag(b, j),
        image::table_end(b, i) <= image::table_start(b, j) || image::table_end(b, j)
            <= image::table_start(b, i),
{
    lemma_directory(b, 0, i);
    lemma_directory(b, 0, j);
    lemma_pairs(b, i, i + 1, j);
}

proof fn lemma_directory(b: Seq<u8>, from: int, i: int)
    requires
        image::directory_error(b, from) is None,
        0 <= from <= i < image::table_count(b),
    ensures
        image::table_placed(b, i),
        image::pairs_error(b, i, i + 1) is None,
    decreases i - from,
{
    if from < i {
        lemma_directory(b, from + 1, i);
    }
}

proof fn lemma_pairs(b: Seq<u8>, i: int, from: int, j: int)
    requires
        image::pairs_error(b, i, from) is None,
        from <= j < image::table_count(b),
    ensures
        image::pair_error(b, i, j) is None,
    decreases j - from,
{
    if from < j {
        lemma_pairs(b, i, from + 1, j);
    }
}

/// Every surface of a valid image of the second version can be decoded: parsing
/// has read it once.
pub proof fn surfaces_decode(v: ImageView, id: int)
    requires
        v.valid(),
        v.v2,
        0 <= id < v.surface_count,
    ensures
        v.surface(id) is Ok,
{
    reveal(ImageView::valid);
    let r = id / 16;
    let restart = id - id % 16;
    assert(restart == 16 * r);
    assert(r < image::restarts(v.surface_count));
    lemma_block(v, 0, r);
    lemma_block_prefix(v, r, id + 1 - restart);
}

proof fn lemma_block(v: ImageView, from: int, r: int)
    requires
        v.blocks_error(from) is None,
        0 <= from <= r < image::restarts(v.surface_count),
    ensures
        v.restart_ok(r),
        v.block_error(r, 0, image::offset(v.surface_offsets, r), Seq::<u8>::empty()) is None,
    decreases r - from,
{
    if from < r {
        lemma_block(v, from + 1, r);
    }
}

/// The first `k` records of a block without a fault decode to the state in which
/// the rest of it has none.
proof fn lemma_block_prefix(v: ImageView, r: int, k: int)
    requires
        v.v2,
        r >= 0,
        0 <= k <= v.block_len(r),
        v.block_error(r, 0, image::offset(v.surface_offsets, r), Seq::<u8>::empty()) is None,
    ensures
        v.surface_before(16 * r, 16 * r + k) matches Ok(state) && v.block_error(
            r,
            k,
            state.1,
            state.0,
        ) is None,
    decreases k,
{
    if k > 0 {
        lemma_block_prefix(v, r, k - 1);
    } else {
        assert((16 * r) / 16 == r);
    }
}

/// Every annotation of a valid image of the second version can be read.
pub proof fn annotations_decode(v: ImageView, locator: u32)
    requires
        v.valid(),
        v.v2,
    ensures
        v.annotation(locator) is Ok,
{
    reveal(ImageView::valid);
    if let Some(id) = v.annotation_id(locator) {
        let i = v.find_annotation(locator as int)->0;
        assert(v.indexed_entry(i) == locator);
        assert(0 <= id < v.annotation_count);
        let offsets = v.annotation_offsets;
        assert(image::offset(offsets, id) < v.annotations.len());
        if id + 1 < v.annotation_count {
            assert(image::offset(offsets, id) < image::offset(offsets, id + 1));
            assert(image::offset(offsets, id + 1) < v.annotations.len());
        }
        assert(image::text_record(
            offsets,
            v.annotation_count,
            v.annotations,
            id,
        ) is Some);
    }
}

/// The classes of every entry of a valid image are classes of its connection
/// matrix, and its surface is one of its surfaces.
pub proof fn entries_name_what_exists(v: ImageView, i: int)
    requires
        v.valid(),
        0 <= i < v.entry_count,
    ensures
        v.entry(i).left_id < v.class_count,
        v.entry(i).right_id < v.class_count,
        v.entry(i).surface_id < v.surface_count,
{
    reveal(ImageView::valid);
    assert(v.entry_ok(i));
}

/// A boundary separates the class zero from every class on either side.
pub proof fn class_zero_is_always_a_boundary(v: ImageView, class: int)
    requires
        v.valid(),
        v.boundaries is Some,
        0 <= class < v.class_count,
    ensures
        image::boundary_bit(v.boundaries->0, v.class_count, 0, class),
        image::boundary_bit(v.boundaries->0, v.class_count, class, 0),
{
    reveal(ImageView::valid);
    assert(image::boundary_row_ok(v.boundaries->0, v.class_count, class));
}

/// A match is an entry of the node that a prefix of the reading leads to, and its
/// length is the length of that prefix.
pub proof fn prefix_match_has_a_prefix(v: ImageView, reading: Seq<char>, n: int, i: int)
    requires
        0 <= n <= reading.len(),
        0 <= i < v.prefix_matches(reading, n).len(),
    ensures
        exists|k: int, node: int|
            #![trigger v.node_matches(node, strings::utf8_len(reading.take(k)))]
            1 <= k <= n && v.node_for(reading.take(k)) == Some(node) && v.node_matches(
                node,
                strings::utf8_len(reading.take(k)),
            ).contains(v.prefix_matches(reading, n)[i]),
    decreases n,
{
    let before = v.prefix_matches(reading, n - 1);
    if n > 0 {
        if i < before.len() {
            prefix_match_has_a_prefix(v, reading, n - 1, i);
            assert(v.prefix_matches(reading, n)[i] == before[i]);
        } else {
            let node = v.node_for(reading.take(n))->0;
            let found = v.node_matches(node, strings::utf8_len(reading.take(n)));
            assert(v.prefix_matches(reading, n)[i] == found[i - before.len()]);
        }
    }
}

/// Every entry of a node that a prefix of the reading leads to is a match.
pub proof fn prefix_entries_are_matched(
    v: ImageView,
    reading: Seq<char>,
    n: int,
    k: int,
    node: int,
    m: PrefixMatch,
)
    requires
        1 <= k <= n <= reading.len(),
        v.node_for(reading.take(k)) == Some(node),
        v.node_matches(node, strings::utf8_len(reading.take(k))).contains(m),
    ensures
        v.prefix_matches(reading, n).contains(m),
    decreases n,
{
    let before = v.prefix_matches(reading, n - 1);
    let all = v.prefix_matches(reading, n);
    if k < n {
        prefix_entries_are_matched(v, reading, n - 1, k, node, m);
        let i = before.index_of(m);
        assert(all[i] == m);
    } else {
        let found = v.node_matches(node, strings::utf8_len(reading.take(k)));
        let i = found.index_of(m);
        assert(all[before.len() + i] == m);
    }
}

/// A preview of a description ends at the last boundary between two characters that is
/// still within the bound: it splits no character, it is the beginning of the text, and
/// no longer beginning of the text is within the bound.
pub proof fn previews_are_the_longest_that_fit(text: Seq<char>, limit: int)
    requires
        0 <= limit <= encode_utf8(text).len(),
    ensures
        ({
            let bytes = encode_utf8(text);
            let end = model::preview_end(bytes, limit);
            let preview = decode_utf8(bytes.take(end));
            &&& 0 <= end <= limit
            &&& is_char_boundary(bytes, end)
            &&& forall|m: int| end < m <= limit ==> !#[trigger] is_char_boundary(bytes, m)
            &&& preview.len() <= text.len()
            &&& preview == text.take(preview.len() as int)
            &&& encode_utf8(preview) == bytes.take(end)
            &&& forall|n: int|
                preview.len() < n <= text.len() ==> encode_utf8(#[trigger] text.take(n)).len()
                    > limit
        }),
{
    let bytes = encode_utf8(text);
    let end = model::preview_end(bytes, limit);
    let preview = decode_utf8(bytes.take(end));
    encode_utf8_valid_utf8(text);
    encode_utf8_decode_utf8(text);
    is_char_boundary_start_end_of_seq(bytes);
    lemma_preview_end(bytes, limit);
    valid_utf8_split(bytes, end);
    decode_utf8_split(bytes, end);
    assert(bytes.subrange(0, end) =~= bytes.take(end));
    decode_utf8_encode_utf8(bytes.take(end));
    assert(preview =~= text.take(preview.len() as int));
    assert forall|n: int| preview.len() < n <= text.len() implies encode_utf8(
        #[trigger] text.take(n),
    ).len() > limit by {
        let longer = text.take(n);
        let rest = text.skip(n);
        let more = text.subrange(preview.len() as int, n);
        assert(text =~= longer + rest);
        strings::lemma_encode_concat(longer, rest);
        assert(longer =~= preview + more);
        strings::lemma_encode_concat(preview, more);
        strings::lemma_len_bounds(more);
        let m = encode_utf8(longer).len() as int;
        lemma_boundary_behind(longer, rest);
        assert(is_char_boundary(bytes, m));
    }
}

proof fn lemma_preview_end(bytes: Seq<u8>, limit: int)
    requires
        valid_utf8(bytes),
        0 <= limit <= bytes.len(),
    ensures
        ({
            let end = model::preview_end(bytes, limit);
            &&& 0 <= end <= limit
            &&& is_char_boundary(bytes, end)
            &&& forall|m: int| end < m <= limit ==> !#[trigger] is_char_boundary(bytes, m)
        }),
    decreases limit,
{
    is_char_boundary_start_end_of_seq(bytes);
    if limit > 0 && !is_char_boundary(bytes, limit) {
        lemma_preview_end(bytes, limit - 1);
    }
}

/// Where the encoding of a text goes on with that of another, there is a boundary.
proof fn lemma_boundary_behind(a: Seq<char>, b: Seq<char>)
    ensures
        is_char_boundary(encode_utf8(a + b), encode_utf8(a).len() as int),
    decreases a.len(),
{
    encode_utf8_valid_utf8(a + b);
    strings::lemma_encode_concat(a, b);
    if a.len() == 0 {
        is_char_boundary_start_end_of_seq(encode_utf8(a + b));
    } else {
        let rest = a.drop_first();
        assert((a + b).drop_first() =~= rest + b);
        assert((a + b)[0] == a[0]);
        lemma_boundary_behind(rest, b);
        encode_utf8_first_scalar(a + b);
        strings::lemma_char_width(a[0]);
        let whole = encode_utf8(a + b);
        let n = length_of_first_scalar(whole);
        assert(pop_first_scalar(whole) =~= encode_utf8(rest + b));
        assert(encode_utf8(a).len() == n + encode_utf8(rest).len());
    }
}

/// A kind is decoded from its own code, and no other value decodes to it.
pub proof fn variant_codes_round_trip(kind: SingleKanjiVariantKind, code: u8)
    ensures
        SingleKanjiVariantKind::of_code(kind.code_of()) == Some(kind),
        SingleKanjiVariantKind::of_code(code) == Some(kind) <==> code == kind.code_of(),
        SingleKanjiVariantKind::of_code(0) is None,
{
    assert(kind.code_of() == kind.code_of());
}

/// Two sets of flags together have the flags of each.
pub proof fn united_flags_are_held(a: EntryFlags, b: EntryFlags)
    ensures
        EntryFlags(a.0 | b.0).has(a),
        EntryFlags(a.0 | b.0).has(b),
{
    let (x, y): (u16, u16) = (a.0, b.0);
    assert((x | y) & x == x) by (bit_vector);
    assert((x | y) & y == y) by (bit_vector);
}

} // verus!
