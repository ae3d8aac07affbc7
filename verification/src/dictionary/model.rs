//! What lookups in a valid image return.

use super::image;
use super::image::{ImageView, SingleKanjiView};
use super::image_format;
use super::raw;
use super::{Entry, EntryFlags, Error, PrefixMatch};
use crate::strings;
use crate::values;
use vstd::prelude::*;
#[allow(unused_imports)]
use vstd::utf8::*;

verus! {

impl SingleKanjiView {
    /// The index record whose reading is `needle`.
    pub open spec fn find(self, needle: Seq<u8>) -> Option<int> {
        if exists|i: int| 0 <= i < self.index_count && #[trigger] self.reading(i) == needle {
            Some(choose|i: int| 0 <= i < self.index_count && #[trigger] self.reading(i) == needle)
        } else {
            None
        }
    }

    /// The characters that the reading `needle` names, in the table's order.
    pub open spec fn chars_for(self, needle: Seq<u8>) -> Seq<char> {
        match self.find(needle) {
            Some(i) => Seq::new(
                (self.char_end(i) - self.char_start(i)) as nat,
                |k: int| (self.scalar(self.char_start(i) + k) as u32) as char,
            ),
            None => Seq::empty(),
        }
    }

    /// The variant record about the character with the given scalar value.
    pub open spec fn find_variant(self, scalar: int) -> Option<int> {
        if exists|i: int| 0 <= i < self.variant_count && #[trigger] self.variant(i) == scalar {
            Some(choose|i: int| 0 <= i < self.variant_count && #[trigger] self.variant(i) == scalar)
        } else {
            None
        }
    }
}

/// Index readings of a table without a fault ascend strictly.
pub proof fn lemma_readings_ascend(t: SingleKanjiView, i: int, j: int)
    requires
        image::single_kanji_error(t) is None,
        0 <= i < j < t.index_count,
    ensures
        raw::before(t.reading(i), t.reading(j)),
    decreases j - i,
{
    lemma_index_records(t, 0, j);
    if i + 1 < j {
        lemma_readings_ascend(t, i, j - 1);
        raw::lemma_before_transitive(t.reading(i), t.reading(j - 1), t.reading(j));
    }
}

/// An index without a fault has none in any record.
pub proof fn lemma_index_records(t: SingleKanjiView, from: int, i: int)
    requires
        image::single_kanji_index_error(t, from) is None,
        0 <= from <= i < t.index_count,
    ensures
        image::single_kanji_record_error(t, i) is None,
    decreases i - from,
{
    if from < i {
        lemma_index_records(t, from + 1, i);
    }
}

/// Variant records of a table without a fault ascend strictly.
pub proof fn lemma_variants_ascend(t: SingleKanjiView, i: int, j: int)
    requires
        image::single_kanji_error(t) is None,
        0 <= i < j < t.variant_count,
    ensures
        t.variant(i) < t.variant(j),
    decreases j - i,
{
    assert(t.variant_ok(j));
    if i + 1 < j {
        lemma_variants_ascend(t, i, j - 1);
    }
}

impl ImageView {
    /// The override of `column` in `row`, if there is one.
    pub open spec fn find_override(self, row: int, column: int) -> Option<int> {
        let start = image::matrix_start(self.matrix, self.class_count, row);
        let end = image::matrix_end(self.matrix, self.class_count, row);
        if exists|k: int|
            start <= k < end && #[trigger] image::matrix_left(self.matrix, self.class_count, k)
                == column {
            Some(
                choose|k: int|
                    start <= k < end && #[trigger] image::matrix_left(
                        self.matrix,
                        self.class_count,
                        k,
                    ) == column,
            )
        } else {
            None
        }
    }

    /// The cost of `column` behind `row`: that of its override, or else the one
    /// that most of the row has.
    pub open spec fn connection(self, row: int, column: int) -> int {
        match self.find_override(row, column) {
            Some(k) => image::matrix_cost(self.matrix, self.class_count, k),
            None => image::matrix_mode(self.matrix, row),
        }
    }

    // -----------------------------------------------------------------------
    // The trie.

    /// Whether `k` is the child of `node` with the label `c`.
    pub open spec fn is_child(self, node: int, c: char, k: int) -> bool {
        &&& self.first_child(node) <= k < self.first_child(node) + self.child_count(node)
        &&& self.label_value(k) == c as u32
    }

    /// The child of `node` with the label `c`.
    pub open spec fn child(self, node: int, c: char) -> Option<int> {
        if exists|k: int| self.is_child(node, c, k) {
            Some(choose|k: int| self.is_child(node, c, k))
        } else {
            None
        }
    }

    /// The node that is reached by the labels of `reading`.
    pub open spec fn node_for(self, reading: Seq<char>) -> Option<int>
        decreases reading.len(),
    {
        if reading.len() == 0 {
            Some(0)
        } else {
            match self.node_for(reading.drop_last()) {
                Some(node) => self.child(node, reading.last()),
                None => None,
            }
        }
    }

    /// The entries of `node`, found under a prefix of the given length.
    pub open spec fn node_matches(self, node: int, matched_bytes: nat) -> Seq<PrefixMatch> {
        Seq::new(
            self.value_count(node) as nat,
            |i: int|
                PrefixMatch {
                    matched_bytes: matched_bytes as usize,
                    entry_index: (self.value_start(node) + i) as usize,
                    entry: self.entry(self.value_start(node) + i),
                },
        )
    }

    /// The entries whose reading is a prefix of `reading` of one to `n`
    /// characters, shorter readings first.
    pub open spec fn prefix_matches(self, reading: Seq<char>, n: int) -> Seq<PrefixMatch>
        decreases n,
    {
        if n <= 0 {
            Seq::empty()
        } else {
            let prefix = reading.take(n);
            self.prefix_matches(reading, n - 1) + match self.node_for(prefix) {
                Some(node) => self.node_matches(node, strings::utf8_len(prefix)),
                None => Seq::empty(),
            }
        }
    }

    // -----------------------------------------------------------------------
    // Walks over the trie.

    /// Whether a walk that is for predictions only passes on the entry.
    pub open spec fn wanted(entry: Entry, predictions: bool) -> bool {
        predictions ==> entry.flags.has(EntryFlags(2)) && entry.prediction_cost != i32::MAX
    }

    /// What a walk passes on of `node`, from its `i`-th entry on: the reading,
    /// and the ordinal of the entry.
    pub open spec fn own_visits(
        self,
        node: int,
        reading: Seq<char>,
        i: int,
        predictions: bool,
    ) -> Seq<(Seq<char>, int)>
        decreases self.value_count(node) - i,
    {
        if i >= self.value_count(node) {
            Seq::empty()
        } else {
            let index = self.value_start(node) + i;
            (if ImageView::wanted(self.entry(index), predictions) {
                seq![(reading, index)]
            } else {
                Seq::empty()
            }) + self.own_visits(node, reading, i + 1, predictions)
        }
    }

    /// A walk in depth-first order, below and including `node`: what it passes
    /// on, and the fault that it ends with, if a reading grows too long.
    pub open spec fn walk(self, node: int, reading: Seq<char>, predictions: bool) -> (
        Seq<(Seq<char>, int)>,
        Option<Error>,
    )
        decreases
            values::MAX_PREEDIT_BYTES - strings::utf8_len(reading),
            self.child_count(node) + 1,
    {
        let rest = self.walk_children(node, reading, 0, predictions);
        (self.own_visits(node, reading, 0, predictions) + rest.0, rest.1)
    }

    /// The part of a walk below the children of `node` from the `k`-th one on.
    pub open spec fn walk_children(
        self,
        node: int,
        reading: Seq<char>,
        k: int,
        predictions: bool,
    ) -> (Seq<(Seq<char>, int)>, Option<Error>)
        decreases
            values::MAX_PREEDIT_BYTES - strings::utf8_len(reading),
            self.child_count(node) - k,
    {
        proof {
            strings::lemma_len_push(
                reading,
                (self.label_value(self.first_child(node) + k) as u32) as char,
            );
        }
        if k >= self.child_count(node) {
            (Seq::empty(), None)
        } else {
            let child = self.first_child(node) + k;
            let longer = reading.push((self.label_value(child) as u32) as char);
            if strings::utf8_len(longer) > values::MAX_PREEDIT_BYTES {
                (Seq::empty(), Some(Error::TextOverflow))
            } else {
                let below = self.walk(child, longer, predictions);
                if below.1 is Some {
                    below
                } else {
                    let rest = self.walk_children(node, reading, k + 1, predictions);
                    (below.0 + rest.0, rest.1)
                }
            }
        }
    }

    /// The nodes strictly below `node`, from its `k`-th child on, in
    /// depth-first order; `None` where a path is longer than the deepest that
    /// is followed.
    pub open spec fn descendants(self, node: int, depth: int, k: int) -> Seq<Option<int>>
        decreases values::MAX_PREEDIT_BYTES + 1 - depth, self.child_count(node) - k,
    {
        if k >= self.child_count(node) {
            Seq::empty()
        } else if depth >= values::MAX_PREEDIT_BYTES + 1 {
            seq![None]
        } else {
            let child = self.first_child(node) + k;
            seq![Some(child)] + self.descendants(child, depth + 1, 0) + self.descendants(
                node,
                depth,
                k + 1,
            )
        }
    }

    /// A bounded visit of `nodes`: see [`Visit`].
    pub open spec fn visit(self, state: Visit, nodes: Seq<Option<int>>) -> Visit
        decreases nodes.len(),
    {
        if nodes.len() == 0 || state.nodes_left == 0 || state.entries_left == 0
            || state.error is Some {
            state
        } else {
            self.visit(self.visit_one(state, nodes[0]), nodes.drop_first())
        }
    }

    /// The visit of the nodes below the node of a reading, with both budgets still
    /// whole.
    pub open spec fn visit_below(
        self,
        prefix: Seq<char>,
        node_budget: int,
        entry_budget: int,
    ) -> Visit {
        let start = Visit {
            entries: Seq::empty(),
            nodes_left: node_budget,
            entries_left: entry_budget,
            error: None,
        };
        match self.node_for(prefix) {
            None => start,
            Some(node) => self.visit(start, self.descendants(node, 1, 0)),
        }
    }

    /// The visit of one node, up to the last entry that is still allowed.
    pub open spec fn visit_one(self, state: Visit, node: Option<int>) -> Visit {
        match node {
            None => Visit { error: Some(Error::BadTree), ..state },
            Some(n) => {
                let count = if self.value_count(n) < state.entries_left {
                    self.value_count(n)
                } else {
                    state.entries_left
                };
                Visit {
                    entries: state.entries + Seq::new(
                        count as nat,
                        |i: int| self.entry(self.value_start(n) + i),
                    ),
                    nodes_left: state.nodes_left - 1,
                    entries_left: state.entries_left - count,
                    error: None,
                }
            },
        }
    }

    // -----------------------------------------------------------------------
    // Text.

    /// The front-coded text before surface `index`, decoded from the restart
    /// point `restart` on, and in the second version where its record stands.
    pub open spec fn surface_before(self, restart: int, index: int) -> Result<(Seq<u8>, int), Error>
        decreases index - restart,
    {
        if index <= restart {
            Ok(
                (
                    Seq::empty(),
                    if self.v2 {
                        image::offset(
                            self.surface_offsets,
                            restart / (image_format::SURFACE_RESTART_INTERVAL as int),
                        )
                    } else {
                        0
                    },
                ),
            )
        } else {
            match self.surface_before(restart, index - 1) {
                Err(e) => Err(e),
                Ok((value, cursor)) => match self.surface_record(cursor, index - 1) {
                    None => Err(
                        if self.v2 {
                            Error::BadTable(image_format::TAG_SURFACES)
                        } else {
                            Error::BadEntry
                        },
                    ),
                    Some(record) => match image::coded_value(
                        value,
                        record,
                        index - 1 == restart,
                    ) {
                        Err(e) => Err(e),
                        Ok(next) => Ok((next, cursor + record.len())),
                    },
                },
            }
        }
    }

    /// The record of surface `index`.
    pub open spec fn surface_record(self, cursor: int, index: int) -> Option<Seq<u8>> {
        if self.v2 {
            image::packed_record(self.surfaces, cursor)
        } else {
            image::text_record(self.surface_offsets, self.surface_count, self.surfaces, index)
        }
    }

    /// The text of surface `id`.
    pub open spec fn surface(self, id: int) -> Result<Seq<char>, Error> {
        if id >= self.surface_count {
            Err(Error::BadEntry)
        } else {
            let restart = id - id % (image_format::SURFACE_RESTART_INTERVAL as int);
            match self.surface_before(restart, id + 1) {
                Err(e) => Err(e),
                Ok((value, _)) => Ok(decode_utf8(value)),
            }
        }
    }

    /// The index record of the annotation of the entry `ordinal`.
    pub open spec fn find_annotation(self, ordinal: int) -> Option<int> {
        if exists|i: int|
            0 <= i < self.annotation_index_count && #[trigger] self.indexed_entry(i) == ordinal {
            Some(
                choose|i: int|
                    0 <= i < self.annotation_index_count && #[trigger] self.indexed_entry(i)
                        == ordinal,
            )
        } else {
            None
        }
    }

    /// The annotation that an entry's locator names, if any.
    pub open spec fn annotation_id(self, locator: u32) -> Option<int> {
        if self.v2 {
            match self.find_annotation(locator as int) {
                Some(i) => Some(self.indexed_annotation(i)),
                None => None,
            }
        } else if locator == image_format::NO_ANNOTATION {
            None
        } else {
            Some(locator as int)
        }
    }

    /// The text of an entry's annotation; empty where it has none.
    pub open spec fn annotation(self, locator: u32) -> Result<Seq<char>, Error> {
        match self.annotation_id(locator) {
            None => Ok(Seq::empty()),
            Some(id) => match image::text_record(
                self.annotation_offsets,
                self.annotation_count,
                self.annotations,
                id,
            ) {
                None => Err(Error::BadEntry),
                Some(record) => if valid_utf8(record) {
                    Ok(decode_utf8(record))
                } else {
                    Err(Error::BadUtf8)
                },
            },
        }
    }
}

/// The most bytes of a description that a preview may take.
pub open spec fn preview_limit(total: int, maximum: int, remaining: int) -> int {
    let a = if maximum < total {
        maximum
    } else {
        total
    };
    if remaining < a {
        remaining
    } else {
        a
    }
}

/// The last character boundary at or before `limit`.
pub open spec fn preview_end(bytes: Seq<u8>, limit: int) -> int
    decreases limit,
{
    if limit <= 0 || is_char_boundary(bytes, limit) {
        limit
    } else {
        preview_end(bytes, limit - 1)
    }
}

/// The state of a visit with budgets: the entries passed on so far, how many
/// nodes and entries may still be visited, and the fault met, if any.
pub struct Visit {
    pub entries: Seq<Entry>,
    pub nodes_left: int,
    pub entries_left: int,
    pub error: Option<Error>,
}

/// A visit may be interrupted between two nodes.
pub proof fn lemma_visit_concat(v: ImageView, state: Visit, a: Seq<Option<int>>, b: Seq<Option<int>>)
    ensures
        v.visit(state, a + b) == v.visit(v.visit(state, a), b),
    decreases a.len(),
{
    if a.len() == 0 {
        assert(a + b =~= b);
    } else if state.nodes_left == 0 || state.entries_left == 0 || state.error is Some {
    } else {
        assert((a + b).drop_first() =~= a.drop_first() + b);
        lemma_visit_concat(v, v.visit_one(state, a[0]), a.drop_first(), b);
    }
}

} // verus!
