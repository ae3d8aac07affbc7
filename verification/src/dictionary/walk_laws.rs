//! How walks over the trie and lookups in it agree.

use super::image::ImageView;
use super::PrefixMatch;
use crate::strings;
use crate::values;
use vstd::prelude::*;

verus! {

/// The label of the `k`-th child of a node.
pub open spec fn label_of(v: ImageView, node: int, k: int) -> char {
    (v.label_value(v.first_child(node) + k) as u32) as char
}

/// The trie of a valid image is well formed, and has a root.
pub proof fn lemma_tree(v: ImageView)
    requires
        v.valid(),
    ensures
        v.tree_ok(),
        v.node_count >= 1,
{
    reveal(ImageView::valid);
}

/// The labels of a node's children differ, so that a child is found by its label.
pub proof fn lemma_child_by_label(v: ImageView, node: int, k: int)
    requires
        v.valid(),
        0 <= node < v.node_count,
        0 <= k < v.child_count(node),
    ensures
        v.child(node, label_of(v, node, k)) == Some(v.first_child(node) + k),
        0 <= v.first_child(node) + k < v.node_count,
{
    lemma_tree(v);
    assert(v.node_ok(node));
    let child = v.first_child(node) + k;
    assert(v.node_ok(child));
    let c = label_of(v, node, k);
    assert(strings::is_scalar_value(v.label_value(child)));
    assert(c as u32 == v.label_value(child));
    assert(v.is_child(node, c, child));
    let found = choose|j: int| v.is_child(node, c, j);
    assert(v.is_child(node, c, found));
    lemma_sorted(v, node, found - v.first_child(node), k);
    lemma_sorted(v, node, k, found - v.first_child(node));
}

/// A label is the character whose value it has.
pub proof fn lemma_label(c: char, value: int)
    requires
        value == c as u32,
    ensures
        (value as u32) as char == c,
{
}

/// The labels of a node's children ascend.
pub proof fn lemma_sorted(v: ImageView, node: int, i: int, j: int)
    requires
        v.valid(),
        0 <= node < v.node_count,
        0 <= i < v.child_count(node),
        0 <= j < v.child_count(node),
    ensures
        i < j ==> v.label_value(v.first_child(node) + i) < v.label_value(v.first_child(node) + j),
    decreases j - i,
{
    lemma_tree(v);
    assert(v.node_ok(node));
    if i < j {
        assert(v.children_sorted(node));
        if i + 1 < j {
            lemma_sorted(v, node, i, j - 1);
        }
    }
}

/// Whether a walk may pass on an entry with a reading: it is an entry of the node that
/// the reading leads to, and the walk wants it.
pub open spec fn is_entry_of(
    v: ImageView,
    reading: Seq<char>,
    index: int,
    predictions: bool,
) -> bool {
    &&& v.node_for(reading) matches Some(node) && v.value_start(node) <= index
        < v.value_start(node) + v.value_count(node)
    &&& ImageView::wanted(v.entry(index), predictions)
}

/// What a node has of its own.
proof fn lemma_own(
    v: ImageView,
    node: int,
    reading: Seq<char>,
    i: int,
    predictions: bool,
)
    requires
        0 <= i,
    ensures
        forall|j: int|
            0 <= j < v.own_visits(node, reading, i, predictions).len() ==> {
                let visit = #[trigger] v.own_visits(node, reading, i, predictions)[j];
                &&& visit.0 == reading
                &&& v.value_start(node) + i <= visit.1 < v.value_start(node) + v.value_count(node)
                &&& ImageView::wanted(v.entry(visit.1), predictions)
            },
        forall|n: int|
            i <= n < v.value_count(node) && ImageView::wanted(
                v.entry(v.value_start(node) + n),
                predictions,
            ) ==> #[trigger] v.own_visits(node, reading, i, predictions).contains(
                (reading, v.value_start(node) + n),
            ),
    decreases v.value_count(node) - i,
{
    if i < v.value_count(node) {
        lemma_own(v, node, reading, i + 1, predictions);
        let index = v.value_start(node) + i;
        let rest = v.own_visits(node, reading, i + 1, predictions);
        let all = v.own_visits(node, reading, i, predictions);
        let shift: int = if ImageView::wanted(v.entry(index), predictions) {
            1
        } else {
            0
        };
        assert forall|j: int| 0 <= j < all.len() implies {
            let visit = #[trigger] all[j];
            &&& visit.0 == reading
            &&& v.value_start(node) + i <= visit.1 < v.value_start(node) + v.value_count(node)
            &&& ImageView::wanted(v.entry(visit.1), predictions)
        } by {
            if j >= shift {
                assert(all[j] == rest[j - shift]);
            }
        }
        assert forall|n: int|
            i <= n < v.value_count(node) && ImageView::wanted(
                v.entry(v.value_start(node) + n),
                predictions,
            ) implies #[trigger] all.contains((reading, v.value_start(node) + n)) by {
            if n == i {
                assert(all[0] == (reading, v.value_start(node) + n));
            } else {
                assert(rest.contains((reading, v.value_start(node) + n)));
                let m = choose|m: int|
                    0 <= m < rest.len() && rest[m] == (reading, v.value_start(node) + n);
                assert(all[m + shift] == rest[m]);
            }
        }
    }
}

/// What a walk passes on below a node are entries of the readings that it gives.
proof fn lemma_walk(v: ImageView, node: int, reading: Seq<char>, predictions: bool)
    requires
        v.valid(),
        0 <= node < v.node_count,
        v.node_for(reading) == Some(node),
    ensures
        forall|j: int|
            0 <= j < v.walk(node, reading, predictions).0.len() ==> is_entry_of(
                v,
                (#[trigger] v.walk(node, reading, predictions).0[j]).0,
                v.walk(node, reading, predictions).0[j].1,
                predictions,
            ),
    decreases values::MAX_PREEDIT_BYTES - strings::utf8_len(reading), v.child_count(node) + 1,
{
    lemma_own(v, node, reading, 0, predictions);
    lemma_walk_children(v, node, reading, 0, predictions);
    let own = v.own_visits(node, reading, 0, predictions);
    let rest = v.walk_children(node, reading, 0, predictions).0;
    let all = v.walk(node, reading, predictions).0;
    assert forall|j: int| 0 <= j < all.len() implies is_entry_of(
        v,
        (#[trigger] all[j]).0,
        all[j].1,
        predictions,
    ) by {
        if j < own.len() {
            assert(all[j] == own[j]);
        } else {
            assert(all[j] == rest[j - own.len()]);
        }
    }
}

/// So are those that it passes on below some of a node's children.
proof fn lemma_walk_children(v: ImageView, node: int, reading: Seq<char>, k: int, predictions: bool)
    requires
        v.valid(),
        0 <= node < v.node_count,
        v.node_for(reading) == Some(node),
        0 <= k,
    ensures
        forall|j: int|
            0 <= j < v.walk_children(node, reading, k, predictions).0.len() ==> is_entry_of(
                v,
                (#[trigger] v.walk_children(node, reading, k, predictions).0[j]).0,
                v.walk_children(node, reading, k, predictions).0[j].1,
                predictions,
            ),
    decreases values::MAX_PREEDIT_BYTES - strings::utf8_len(reading), v.child_count(node) - k,
{
    if k < v.child_count(node) {
        let c = label_of(v, node, k);
        let child = v.first_child(node) + k;
        let longer = reading.push(c);
        strings::lemma_len_push(reading, c);
        lemma_child_by_label(v, node, k);
        assert(longer.drop_last() =~= reading);
        assert(longer.last() == c);
        assert(v.node_for(longer) == Some(child));
        if strings::utf8_len(longer) <= values::MAX_PREEDIT_BYTES {
            lemma_walk(v, child, longer, predictions);
            let below = v.walk(child, longer, predictions);
            if below.1 is None {
                lemma_walk_children(v, node, reading, k + 1, predictions);
                let rest = v.walk_children(node, reading, k + 1, predictions).0;
                let all = v.walk_children(node, reading, k, predictions).0;
                assert forall|j: int| 0 <= j < all.len() implies is_entry_of(
                    v,
                    (#[trigger] all[j]).0,
                    all[j].1,
                    predictions,
                ) by {
                    if j < below.0.len() {
                        assert(all[j] == below.0[j]);
                    } else {
                        assert(all[j] == rest[j - below.0.len()]);
                    }
                }
            }
        }
    }
}

/// Every entry that a walk passes on is found by a lookup of the reading that it is
/// passed on with: the lookup matches the whole reading, with the same entry under
/// the same ordinal.
pub proof fn walked_entries_are_found(v: ImageView, predictions: bool, j: int)
    requires
        v.valid(),
        0 <= j < v.walk(0, Seq::<char>::empty(), predictions).0.len(),
        v.walk(0, Seq::<char>::empty(), predictions).0[j].0.len() > 0,
    ensures
        ({
            let (reading, index) = v.walk(0, Seq::<char>::empty(), predictions).0[j];
            &&& ImageView::wanted(v.entry(index), predictions)
            &&& v.prefix_matches(reading, reading.len() as int).contains(
                (PrefixMatch {
                    matched_bytes: strings::utf8_len(reading) as usize,
                    entry_index: index as usize,
                    entry: v.entry(index),
                }),
            )
        }),
{
    lemma_tree(v);
    lemma_walk(v, 0, Seq::<char>::empty(), predictions);
    let (reading, index) = v.walk(0, Seq::<char>::empty(), predictions).0[j];
    assert(is_entry_of(v, reading, index, predictions));
    let node = v.node_for(reading)->Some_0;
    let n = reading.len() as int;
    assert(reading.take(n) =~= reading);
    let found = v.node_matches(node, strings::utf8_len(reading));
    let m = PrefixMatch {
        matched_bytes: strings::utf8_len(reading) as usize,
        entry_index: index as usize,
        entry: v.entry(index),
    };
    let all = v.prefix_matches(reading, n);
    let before = v.prefix_matches(reading, n - 1);
    let i = index - v.value_start(node);
    assert(found[i] == m);
    assert(all[before.len() + i] == m);
}

/// A walk below a child is part of the walk below its node, unless a reading grows too
/// long.
proof fn lemma_walk_below(
    v: ImageView,
    node: int,
    reading: Seq<char>,
    k: int,
    i: int,
    predictions: bool,
)
    requires
        0 <= k <= i < v.child_count(node),
        v.walk_children(node, reading, k, predictions).1 is None,
    ensures
        strings::utf8_len(reading.push(label_of(v, node, i))) <= values::MAX_PREEDIT_BYTES,
        v.walk(v.first_child(node) + i, reading.push(label_of(v, node, i)), predictions).1 is None,
        forall|j: int|
            0 <= j < v.walk(
                v.first_child(node) + i,
                reading.push(label_of(v, node, i)),
                predictions,
            ).0.len() ==> v.walk_children(node, reading, k, predictions).0.contains(
                #[trigger] v.walk(
                    v.first_child(node) + i,
                    reading.push(label_of(v, node, i)),
                    predictions,
                ).0[j],
            ),
    decreases i - k,
{
    let first = v.walk(
        v.first_child(node) + k,
        reading.push(label_of(v, node, k)),
        predictions,
    ).0;
    let rest = v.walk_children(node, reading, k + 1, predictions).0;
    let all = v.walk_children(node, reading, k, predictions).0;
    let below = v.walk(
        v.first_child(node) + i,
        reading.push(label_of(v, node, i)),
        predictions,
    ).0;
    if k < i {
        lemma_walk_below(v, node, reading, k + 1, i, predictions);
        assert forall|j: int| 0 <= j < below.len() implies all.contains(#[trigger] below[j]) by {
            assert(rest.contains(below[j]));
            let m = choose|m: int| 0 <= m < rest.len() && rest[m] == below[j];
            assert(all[first.len() + m] == below[j]);
        }
    } else {
        assert forall|j: int| 0 <= j < below.len() implies all.contains(#[trigger] below[j]) by {
            assert(all[j] == below[j]);
        }
    }
}

/// The walk below the node of a reading is part of the walk below the root.
proof fn lemma_walk_from_root(v: ImageView, reading: Seq<char>, predictions: bool)
    requires
        v.valid(),
        v.walk(0, Seq::<char>::empty(), predictions).1 is None,
        v.node_for(reading) is Some,
    ensures
        ({
            let node = v.node_for(reading)->Some_0;
            &&& 0 <= node < v.node_count
            &&& v.walk(node, reading, predictions).1 is None
            &&& forall|j: int|
                0 <= j < v.walk(node, reading, predictions).0.len() ==> v.walk(
                    0,
                    Seq::<char>::empty(),
                    predictions,
                ).0.contains(#[trigger] v.walk(node, reading, predictions).0[j])
        }),
    decreases reading.len(),
{
    lemma_tree(v);
    if reading.len() == 0 {
        assert(reading =~= Seq::<char>::empty());
    } else {
        let shorter = reading.drop_last();
        let c = reading.last();
        lemma_walk_from_root(v, shorter, predictions);
        let parent = v.node_for(shorter)->Some_0;
        let node = v.node_for(reading)->Some_0;
        assert(v.is_child(parent, c, node));
        let k = node - v.first_child(parent);
        assert(v.node_ok(parent));
        lemma_child_by_label(v, parent, k);
        lemma_label(c, v.label_value(node));
        assert(label_of(v, parent, k) == c);
        assert(shorter.push(c) =~= reading);
        lemma_walk_below(v, parent, shorter, 0, k, predictions);
        let own = v.own_visits(parent, shorter, 0, predictions);
        let rest = v.walk_children(parent, shorter, 0, predictions).0;
        let above = v.walk(parent, shorter, predictions).0;
        let below = v.walk(node, reading, predictions).0;
        let whole = v.walk(0, Seq::<char>::empty(), predictions).0;
        assert forall|j: int| 0 <= j < below.len() implies whole.contains(#[trigger] below[j]) by {
            assert(rest.contains(below[j]));
            let m = choose|m: int| 0 <= m < rest.len() && rest[m] == below[j];
            assert(above[own.len() + m] == below[j]);
        }
    }
}

/// A walk that reaches its end has passed on every entry of every reading, as far as
/// it wants it.
pub proof fn walks_are_complete(v: ImageView, reading: Seq<char>, index: int, predictions: bool)
    requires
        v.valid(),
        v.walk(0, Seq::<char>::empty(), predictions).1 is None,
        is_entry_of(v, reading, index, predictions),
    ensures
        v.walk(0, Seq::<char>::empty(), predictions).0.contains((reading, index)),
{
    lemma_walk_from_root(v, reading, predictions);
    let node = v.node_for(reading)->Some_0;
    lemma_own(v, node, reading, 0, predictions);
    let n = index - v.value_start(node);
    let own = v.own_visits(node, reading, 0, predictions);
    let below = v.walk(node, reading, predictions).0;
    assert(own.contains((reading, v.value_start(node) + n)));
    let m = choose|m: int| 0 <= m < own.len() && own[m] == (reading, index);
    assert(below[m] == (reading, index));
}

/// A reading leads to a node of the trie.
pub proof fn lemma_node_in_range(v: ImageView, reading: Seq<char>)
    requires
        v.valid(),
        v.node_for(reading) is Some,
    ensures
        0 <= v.node_for(reading)->Some_0 < v.node_count,
    decreases reading.len(),
{
    lemma_tree(v);
    if reading.len() > 0 {
        lemma_node_in_range(v, reading.drop_last());
        let parent = v.node_for(reading.drop_last())->Some_0;
        assert(v.is_child(parent, reading.last(), v.node_for(reading)->Some_0));
        assert(v.node_ok(parent));
    }
}

/// Whether a reading goes on behind another.
pub open spec fn goes_on(longer: Seq<char>, reading: Seq<char>) -> bool {
    longer.len() > reading.len() && longer.take(reading.len() as int) == reading
}

/// Every node below the node of a reading is the node of a longer reading that starts
/// with it; the node of the reading itself is visited only where it is one.
pub proof fn descendants_have_longer_readings(
    v: ImageView,
    reading: Seq<char>,
    depth: int,
    k: int,
    j: int,
)
    requires
        v.valid(),
        v.node_for(reading) is Some,
        0 <= k,
        0 <= j < v.descendants(v.node_for(reading)->Some_0, depth, k).len(),
    ensures
        v.descendants(v.node_for(reading)->Some_0, depth, k)[j] matches Some(node) ==> exists|
            longer: Seq<char>,
        |
            #[trigger] goes_on(longer, reading) && v.node_for(longer) == Some(node),
    decreases
        values::MAX_PREEDIT_BYTES + 1 - depth,
        v.child_count(v.node_for(reading)->Some_0) - k,
{
    lemma_node_in_range(v, reading);
    let node = v.node_for(reading)->Some_0;
    let all = v.descendants(node, depth, k);
    if k < v.child_count(node) && depth < values::MAX_PREEDIT_BYTES + 1 {
        let child = v.first_child(node) + k;
        let c = label_of(v, node, k);
        let next = reading.push(c);
        lemma_child_by_label(v, node, k);
        assert(next.drop_last() =~= reading);
        assert(v.node_for(next) == Some(child));
        assert(next.take(reading.len() as int) =~= reading);
        assert(goes_on(next, reading));
        let below = v.descendants(child, depth + 1, 0);
        let rest = v.descendants(node, depth, k + 1);
        if j == 0 {
            assert(all[0] == Some(child));
        } else if j < 1 + below.len() {
            assert(all[j] == below[j - 1]);
            descendants_have_longer_readings(v, next, depth + 1, 0, j - 1);
            if all[j] is Some {
                let longer = choose|longer: Seq<char>|
                    #[trigger] goes_on(longer, next) && v.node_for(longer) == Some(
                        all[j]->Some_0,
                    );
                assert(longer.take(reading.len() as int) =~= longer.take(next.len() as int).take(
                    reading.len() as int,
                ));
                assert(goes_on(longer, reading));
            }
        } else {
            assert(all[j] == rest[j - 1 - below.len()]);
            descendants_have_longer_readings(v, reading, depth, k + 1, j - 1 - below.len());
        }
    }
}

} // verus!
