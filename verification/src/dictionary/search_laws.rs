//! What each search finds of the walk over the whole dictionary.

use super::image;
use super::image::ImageView;
use super::model::Visit;
use super::raw;
use super::walk_laws;
use super::{Entry, PrefixMatch};
use crate::strings;
use crate::values;
use vstd::prelude::*;
#[allow(unused_imports)]
use vstd::utf8::*;

verus! {

/// The walk over all entries.
pub open spec fn full_walk(v: ImageView) -> Seq<(Seq<char>, int)> {
    v.walk(0, Seq::<char>::empty(), false).0
}

/// Whether the walk over all entries reaches its end.
pub open spec fn walk_ends(v: ImageView) -> bool {
    v.walk(0, Seq::<char>::empty(), false).1 is None
}

/// Which entries are for predictions: those that are flagged for it and have a cost.
pub open spec fn predicted(v: ImageView) -> spec_fn((Seq<char>, int)) -> bool {
    |visit: (Seq<char>, int)| ImageView::wanted(v.entry(visit.1), true)
}

/// Which entries a query goes past: those whose reading is a prefix of it.
pub open spec fn on_the_way(query: Seq<char>) -> spec_fn((Seq<char>, int)) -> bool {
    |visit: (Seq<char>, int)|
        0 < visit.0.len() <= query.len() && query.take(visit.0.len() as int) == visit.0
}

/// Which entries lie behind a prefix: those whose reading goes on behind it.
pub open spec fn behind(prefix: Seq<char>) -> spec_fn((Seq<char>, int)) -> bool {
    |visit: (Seq<char>, int)| walk_laws::goes_on(visit.0, prefix)
}

/// An entry as a match of a query.
pub open spec fn matched(v: ImageView) -> spec_fn((Seq<char>, int)) -> PrefixMatch {
    |visit: (Seq<char>, int)|
        PrefixMatch {
            matched_bytes: strings::utf8_len(visit.0) as usize,
            entry_index: visit.1 as usize,
            entry: v.entry(visit.1),
        }
}

/// The entry of a visit.
pub open spec fn visited(v: ImageView) -> spec_fn((Seq<char>, int)) -> Entry {
    |visit: (Seq<char>, int)| v.entry(visit.1)
}

// ---------------------------------------------------------------------------
// Predictions.

proof fn lemma_filter_one<A>(x: A, pred: spec_fn(A) -> bool)
    ensures
        seq![x].filter(pred) == if pred(x) {
            seq![x]
        } else {
            Seq::empty()
        },
{
    reveal_with_fuel(Seq::filter, 2);
    assert(seq![x].drop_last() =~= Seq::empty());
    assert(seq![x].filter(pred) =~= if pred(x) {
        seq![x]
    } else {
        Seq::empty()
    });
}

proof fn lemma_filter_none<A>(s: Seq<A>, pred: spec_fn(A) -> bool)
    requires
        forall|i: int| 0 <= i < s.len() ==> !pred(#[trigger] s[i]),
    ensures
        s.filter(pred) == Seq::<A>::empty(),
    decreases s.len(),
{
    reveal(Seq::filter);
    if s.len() > 0 {
        let rest = s.drop_last();
        assert forall|i: int| 0 <= i < rest.len() implies !pred(#[trigger] rest[i]) by {
            assert(rest[i] == s[i]);
        }
        lemma_filter_none(rest, pred);
    } else {
        assert(s =~= Seq::<A>::empty());
    }
}

proof fn lemma_filter_all<A>(s: Seq<A>, pred: spec_fn(A) -> bool)
    requires
        forall|i: int| 0 <= i < s.len() ==> pred(#[trigger] s[i]),
    ensures
        s.filter(pred) == s,
    decreases s.len(),
{
    reveal(Seq::filter);
    if s.len() > 0 {
        let rest = s.drop_last();
        assert forall|i: int| 0 <= i < rest.len() implies pred(#[trigger] rest[i]) by {
            assert(rest[i] == s[i]);
        }
        lemma_filter_all(rest, pred);
        assert(rest.push(s.last()) =~= s);
    }
}

proof fn lemma_own_predicted(v: ImageView, node: int, reading: Seq<char>, i: int)
    ensures
        v.own_visits(node, reading, i, true) == v.own_visits(node, reading, i, false).filter(
            predicted(v),
        ),
    decreases v.value_count(node) - i,
{
    if i < v.value_count(node) {
        lemma_own_predicted(v, node, reading, i + 1);
        let one = (reading, v.value_start(node) + i);
        lemma_filter_one(one, predicted(v));
        Seq::filter_distributes_over_add(
            seq![one],
            v.own_visits(node, reading, i + 1, false),
            predicted(v),
        );
    } else {
        lemma_filter_none(Seq::<(Seq<char>, int)>::empty(), predicted(v));
    }
}

proof fn lemma_predicted(v: ImageView, node: int, reading: Seq<char>)
    ensures
        v.walk(node, reading, true).0 == v.walk(node, reading, false).0.filter(predicted(v)),
        v.walk(node, reading, true).1 == v.walk(node, reading, false).1,
    decreases values::MAX_PREEDIT_BYTES - strings::utf8_len(reading), v.child_count(node) + 1,
{
    lemma_own_predicted(v, node, reading, 0);
    lemma_predicted_children(v, node, reading, 0);
    Seq::filter_distributes_over_add(
        v.own_visits(node, reading, 0, false),
        v.walk_children(node, reading, 0, false).0,
        predicted(v),
    );
}

proof fn lemma_predicted_children(v: ImageView, node: int, reading: Seq<char>, k: int)
    requires
        0 <= k,
    ensures
        v.walk_children(node, reading, k, true).0 == v.walk_children(
            node,
            reading,
            k,
            false,
        ).0.filter(predicted(v)),
        v.walk_children(node, reading, k, true).1 == v.walk_children(node, reading, k, false).1,
    decreases values::MAX_PREEDIT_BYTES - strings::utf8_len(reading), v.child_count(node) - k,
{
    lemma_filter_none(Seq::<(Seq<char>, int)>::empty(), predicted(v));
    if k < v.child_count(node) {
        let child = v.first_child(node) + k;
        let c = walk_laws::label_of(v, node, k);
        let longer = reading.push(c);
        strings::lemma_len_push(reading, c);
        if strings::utf8_len(longer) <= values::MAX_PREEDIT_BYTES {
            lemma_predicted(v, child, longer);
            lemma_predicted_children(v, node, reading, k + 1);
            Seq::filter_distributes_over_add(
                v.walk(child, longer, false).0,
                v.walk_children(node, reading, k + 1, false).0,
                predicted(v),
            );
        }
    }
}

/// The walk over the entries for predictions is the walk over all entries with those
/// left out that are not flagged for predictions or have no cost as one: the same
/// readings with the same entries, in the same order, and the same end.
pub proof fn predictions_are_picked_from_the_walk(v: ImageView)
    ensures
        v.walk(0, Seq::<char>::empty(), true).0 == full_walk(v).filter(predicted(v)),
        v.walk(0, Seq::<char>::empty(), true).1 == v.walk(0, Seq::<char>::empty(), false).1,
{
    lemma_predicted(v, 0, Seq::<char>::empty());
}

// ---------------------------------------------------------------------------
// The readings below a node.

/// Whether a reading starts with another.
pub open spec fn starts_with(longer: Seq<char>, reading: Seq<char>) -> bool {
    longer.len() >= reading.len() && longer.take(reading.len() as int) == reading
}

/// What a node has of its own, as one list.
proof fn lemma_own_list(v: ImageView, node: int, reading: Seq<char>, i: int)
    requires
        0 <= i <= v.value_count(node),
    ensures
        v.own_visits(node, reading, i, false) == Seq::new(
            (v.value_count(node) - i) as nat,
            |j: int| (reading, v.value_start(node) + i + j),
        ),
    decreases v.value_count(node) - i,
{
    if i < v.value_count(node) {
        lemma_own_list(v, node, reading, i + 1);
    }
    assert(v.own_visits(node, reading, i, false) =~= Seq::new(
        (v.value_count(node) - i) as nat,
        |j: int| (reading, v.value_start(node) + i + j),
    ));
}

/// The readings below a node start with the reading of the node, and are no longer
/// than a reading may be.
proof fn lemma_readings_below(v: ImageView, node: int, reading: Seq<char>)
    requires
        strings::utf8_len(reading) <= values::MAX_PREEDIT_BYTES,
    ensures
        forall|j: int|
            0 <= j < v.walk(node, reading, false).0.len() ==> starts_with(
                (#[trigger] v.walk(node, reading, false).0[j]).0,
                reading,
            ) && strings::utf8_len(v.walk(node, reading, false).0[j].0)
                <= values::MAX_PREEDIT_BYTES,
    decreases values::MAX_PREEDIT_BYTES - strings::utf8_len(reading), v.child_count(node) + 1,
{
    lemma_own_list(v, node, reading, 0);
    lemma_readings_below_children(v, node, reading, 0);
    let own = v.own_visits(node, reading, 0, false);
    let rest = v.walk_children(node, reading, 0, false).0;
    let all = v.walk(node, reading, false).0;
    assert(reading.take(reading.len() as int) =~= reading);
    assert forall|j: int| 0 <= j < all.len() implies starts_with((#[trigger] all[j]).0, reading)
        && strings::utf8_len(all[j].0) <= values::MAX_PREEDIT_BYTES by {
        if j < own.len() {
            assert(all[j] == own[j]);
        } else {
            assert(all[j] == rest[j - own.len()]);
        }
    }
}

/// The readings below the children of a node go on behind the reading of the node.
proof fn lemma_readings_below_children(v: ImageView, node: int, reading: Seq<char>, k: int)
    requires
        0 <= k,
        strings::utf8_len(reading) <= values::MAX_PREEDIT_BYTES,
    ensures
        forall|j: int|
            0 <= j < v.walk_children(node, reading, k, false).0.len() ==> walk_laws::goes_on(
                (#[trigger] v.walk_children(node, reading, k, false).0[j]).0,
                reading,
            ) && strings::utf8_len(v.walk_children(node, reading, k, false).0[j].0)
                <= values::MAX_PREEDIT_BYTES,
    decreases values::MAX_PREEDIT_BYTES - strings::utf8_len(reading), v.child_count(node) - k,
{
    if k < v.child_count(node) {
        let child = v.first_child(node) + k;
        let c = walk_laws::label_of(v, node, k);
        let longer = reading.push(c);
        strings::lemma_len_push(reading, c);
        if strings::utf8_len(longer) <= values::MAX_PREEDIT_BYTES {
            lemma_readings_below(v, child, longer);
            lemma_readings_below_children(v, node, reading, k + 1);
            let below = v.walk(child, longer, false).0;
            let rest = v.walk_children(node, reading, k + 1, false).0;
            let all = v.walk_children(node, reading, k, false).0;
            assert forall|j: int| 0 <= j < all.len() implies walk_laws::goes_on(
                (#[trigger] all[j]).0,
                reading,
            ) && strings::utf8_len(all[j].0) <= values::MAX_PREEDIT_BYTES by {
                if j < below.len() {
                    assert(all[j] == below[j]);
                    assert(all[j].0.take(reading.len() as int) =~= all[j].0.take(
                        longer.len() as int,
                    ).take(reading.len() as int));
                    assert(longer.take(reading.len() as int) =~= reading);
                } else {
                    assert(all[j] == rest[j - below.len()]);
                }
            }
        }
    }
}

/// A selection of readings that all go on with the character `c` selects only below the
/// child with this label.
proof fn lemma_pick(
    v: ImageView,
    node: int,
    reading: Seq<char>,
    k: int,
    pred: spec_fn((Seq<char>, int)) -> bool,
    c: char,
)
    requires
        v.valid(),
        0 <= node < v.node_count,
        0 <= k,
        strings::utf8_len(reading) <= values::MAX_PREEDIT_BYTES,
        v.walk_children(node, reading, k, false).1 is None,
        forall|x: (Seq<char>, int)| #[trigger]
            pred(x) && walk_laws::goes_on(x.0, reading) ==> x.0[reading.len() as int] == c,
    ensures
        v.walk_children(node, reading, k, false).0.filter(pred) == (match v.child(node, c) {
            Some(t) => if t >= v.first_child(node) + k {
                v.walk(t, reading.push(c), false).0.filter(pred)
            } else {
                Seq::empty()
            },
            None => Seq::empty(),
        }),
        v.child(node, c) matches Some(t) ==> (t >= v.first_child(node) + k ==> v.walk(
            t,
            reading.push(c),
            false,
        ).1 is None && strings::utf8_len(reading.push(c)) <= values::MAX_PREEDIT_BYTES),
    decreases v.child_count(node) - k,
{
    lemma_filter_none(Seq::<(Seq<char>, int)>::empty(), pred);
    if v.child(node, c) is Some {
        assert(v.is_child(node, c, v.child(node, c)->Some_0));
    }
    if k < v.child_count(node) {
        let child = v.first_child(node) + k;
        let l = walk_laws::label_of(v, node, k);
        let longer = reading.push(l);
        let below = v.walk(child, longer, false).0;
        let rest = v.walk_children(node, reading, k + 1, false).0;
        lemma_pick(v, node, reading, k + 1, pred, c);
        Seq::filter_distributes_over_add(below, rest, pred);
        walk_laws::lemma_child_by_label(v, node, k);
        if l == c {
            assert(below.filter(pred) + Seq::<(Seq<char>, int)>::empty() =~= below.filter(pred));
        } else {
            lemma_readings_below(v, child, longer);
            assert forall|j: int| 0 <= j < below.len() implies !pred(#[trigger] below[j]) by {
                let x = below[j];
                assert(x.0.take(longer.len() as int)[reading.len() as int]
                    == x.0[reading.len() as int]);
                assert(x.0.take(reading.len() as int) =~= longer.take(reading.len() as int));
                assert(longer.take(reading.len() as int) =~= reading);
                assert(walk_laws::goes_on(x.0, reading));
            }
            lemma_filter_none(below, pred);
            assert(Seq::<(Seq<char>, int)>::empty() + rest.filter(pred) =~= rest.filter(pred));
            if v.child(node, c) == Some(child) {
                walk_laws::lemma_label(c, v.label_value(child));
            }
        }
    }
}

// ---------------------------------------------------------------------------
// Matches of a query.

/// Where no node is reached, nothing longer matches.
proof fn lemma_no_more_matches(v: ImageView, query: Seq<char>, m: int, n: int)
    requires
        1 <= m <= n <= query.len(),
        v.node_for(query.take(m)) is None,
    ensures
        v.node_for(query.take(n)) is None,
        v.prefix_matches(query, n) == v.prefix_matches(query, m - 1),
    decreases n,
{
    if m < n {
        lemma_no_more_matches(v, query, m, n - 1);
        assert(query.take(n).drop_last() =~= query.take(n - 1));
    }
    assert(v.prefix_matches(query, n - 1) + Seq::<PrefixMatch>::empty() =~= v.prefix_matches(
        query,
        n - 1,
    ));
}

proof fn lemma_map_concat<A, B>(a: Seq<A>, b: Seq<A>, f: spec_fn(A) -> B)
    ensures
        (a + b).map_values(f) == a.map_values(f) + b.map_values(f),
{
    assert((a + b).map_values(f) =~= a.map_values(f) + b.map_values(f));
}

/// The entries of a node as matches.
proof fn lemma_own_matches(v: ImageView, node: int, reading: Seq<char>)
    ensures
        v.own_visits(node, reading, 0, false).map_values(matched(v)) == v.node_matches(
            node,
            strings::utf8_len(reading),
        ),
{
    lemma_own_list(v, node, reading, 0);
    assert(v.own_visits(node, reading, 0, false).map_values(matched(v)) =~= v.node_matches(
        node,
        strings::utf8_len(reading),
    ));
}

/// What a query goes past below a node that it leads to: the entries of the node, and
/// what it goes past below the children.
proof fn lemma_on_the_way_below(v: ImageView, query: Seq<char>, m: int, node: int)
    requires
        0 < m <= query.len(),
    ensures
        v.walk(node, query.take(m), false).0.filter(on_the_way(query)).map_values(matched(v))
            == v.node_matches(node, strings::utf8_len(query.take(m))) + v.walk_children(
            node,
            query.take(m),
            0,
            false,
        ).0.filter(on_the_way(query)).map_values(matched(v)),
{
    let pred = on_the_way(query);
    let reading = query.take(m);
    let own = v.own_visits(node, reading, 0, false);
    let rest = v.walk_children(node, reading, 0, false).0;
    lemma_own_list(v, node, reading, 0);
    lemma_filter_all(own, pred);
    Seq::filter_distributes_over_add(own, rest, pred);
    lemma_own_matches(v, node, reading);
    lemma_map_concat(own, rest.filter(pred), matched(v));
}

/// The matches of a query behind its first `m` characters are what it goes past below
/// the node that they lead to.
proof fn lemma_matches(v: ImageView, query: Seq<char>, m: int, node: int)
    requires
        v.valid(),
        0 <= m <= query.len(),
        0 <= node < v.node_count,
        v.node_for(query.take(m)) == Some(node),
        strings::utf8_len(query.take(m)) <= values::MAX_PREEDIT_BYTES,
        v.walk_children(node, query.take(m), 0, false).1 is None,
    ensures
        v.prefix_matches(query, query.len() as int) == v.prefix_matches(query, m)
            + v.walk_children(node, query.take(m), 0, false).0.filter(
            on_the_way(query),
        ).map_values(matched(v)),
    decreases query.len() - m,
{
    let reading = query.take(m);
    let pred = on_the_way(query);
    let children = v.walk_children(node, reading, 0, false).0;
    let none = Seq::<(Seq<char>, int)>::empty();
    assert(none.map_values(matched(v)) =~= Seq::<PrefixMatch>::empty());
    assert(v.prefix_matches(query, m) + Seq::<PrefixMatch>::empty() =~= v.prefix_matches(query, m));
    if m == query.len() {
        lemma_readings_below_children(v, node, reading, 0);
        assert forall|j: int| 0 <= j < children.len() implies !pred(#[trigger] children[j]) by {
            assert(walk_laws::goes_on(children[j].0, reading));
        }
        lemma_filter_none(children, pred);
    } else {
        let c = query[m];
        let longer = query.take(m + 1);
        assert(longer =~= reading.push(c));
        assert(longer.drop_last() =~= reading);
        assert forall|x: (Seq<char>, int)| #[trigger]
            pred(x) && walk_laws::goes_on(x.0, reading) implies x.0[reading.len() as int] == c by {
            assert(query.take(x.0.len() as int)[m] == query[m]);
        }
        lemma_pick(v, node, reading, 0, pred, c);
        match v.child(node, c) {
            None => {
                assert(v.node_for(longer) is None);
                lemma_no_more_matches(v, query, m + 1, query.len() as int);
            },
            Some(child) => {
                assert(v.is_child(node, c, child));
                walk_laws::lemma_tree(v);
                assert(v.node_ok(node));
                assert(v.node_for(longer) == Some(child));
                lemma_on_the_way_below(v, query, m + 1, child);
                lemma_matches(v, query, m + 1, child);
                let first = v.prefix_matches(query, m);
                let here = v.node_matches(child, strings::utf8_len(longer));
                let later = v.walk_children(child, longer, 0, false).0.filter(pred).map_values(
                    matched(v),
                );
                assert(v.prefix_matches(query, m + 1) == first + here);
                assert((first + here) + later =~= first + (here + later));
            },
        }
    }
}

/// The matches of a query are the entries of the walk over the whole dictionary whose
/// reading is a prefix of the query and not empty, in the order of the walk. Each
/// stands with its ordinal and the length of its reading.
pub proof fn matches_are_picked_from_the_walk(v: ImageView, query: Seq<char>)
    requires
        v.valid(),
        walk_ends(v),
    ensures
        v.prefix_matches(query, query.len() as int) == full_walk(v).filter(
            on_the_way(query),
        ).map_values(matched(v)),
{
    let root = Seq::<char>::empty();
    let pred = on_the_way(query);
    walk_laws::lemma_tree(v);
    assert(query.take(0) =~= root);
    lemma_matches(v, query, 0, 0);
    let own = v.own_visits(0, root, 0, false);
    let rest = v.walk_children(0, root, 0, false).0;
    lemma_own_list(v, 0, root, 0);
    lemma_filter_none(own, pred);
    Seq::filter_distributes_over_add(own, rest, pred);
    assert(Seq::<(Seq<char>, int)>::empty() + rest.filter(pred) =~= rest.filter(pred));
    assert(Seq::<PrefixMatch>::empty() + rest.filter(pred).map_values(matched(v)) =~= rest.filter(
        pred,
    ).map_values(matched(v)));
}

/// A match names its entry: it holds the entry of the dictionary with its ordinal.
pub proof fn matches_name_their_entries(v: ImageView, query: Seq<char>, n: int, i: int)
    requires
        v.valid(),
        0 <= n <= query.len(),
        0 <= i < v.prefix_matches(query, n).len(),
    ensures
        ({
            let m = v.prefix_matches(query, n)[i];
            m.entry_index < v.entry_count && m.entry == v.entry(m.entry_index as int)
        }),
    decreases n,
{
    let all = v.prefix_matches(query, n);
    if n > 0 {
        let before = v.prefix_matches(query, n - 1);
        if i < before.len() {
            matches_name_their_entries(v, query, n - 1, i);
            assert(all[i] == before[i]);
        } else {
            let prefix = query.take(n);
            let node = v.node_for(prefix)->Some_0;
            let found = v.node_matches(node, strings::utf8_len(prefix));
            assert(all[i] == found[i - before.len()]);
            walk_laws::lemma_node_in_range(v, prefix);
            walk_laws::lemma_tree(v);
            assert(v.node_ok(node));
            image::lemma_valid_shaped(v);
        }
    }
}

// ---------------------------------------------------------------------------
// Entries behind a prefix.

/// What lies behind a prefix is what the walk passes on below its node.
proof fn lemma_behind(v: ImageView, prefix: Seq<char>, m: int, node: int)
    requires
        v.valid(),
        0 <= m <= prefix.len(),
        0 <= node < v.node_count,
        v.node_for(prefix.take(m)) == Some(node),
        strings::utf8_len(prefix.take(m)) <= values::MAX_PREEDIT_BYTES,
        v.walk_children(node, prefix.take(m), 0, false).1 is None,
    ensures
        v.walk_children(node, prefix.take(m), 0, false).0.filter(behind(prefix)) == (
        match v.node_for(prefix) {
            Some(t) => v.walk_children(t, prefix, 0, false).0,
            None => Seq::empty(),
        }),
        v.node_for(prefix) matches Some(t) ==> 0 <= t < v.node_count && v.walk_children(
            t,
            prefix,
            0,
            false,
        ).1 is None && strings::utf8_len(prefix) <= values::MAX_PREEDIT_BYTES,
    decreases prefix.len() - m,
{
    let reading = prefix.take(m);
    let pred = behind(prefix);
    let children = v.walk_children(node, reading, 0, false).0;
    if m == prefix.len() {
        assert(reading =~= prefix);
        lemma_readings_below_children(v, node, reading, 0);
        lemma_filter_all(children, pred);
    } else {
        let c = prefix[m];
        let longer = prefix.take(m + 1);
        assert(longer =~= reading.push(c));
        assert(longer.drop_last() =~= reading);
        assert forall|x: (Seq<char>, int)| #[trigger]
            pred(x) && walk_laws::goes_on(x.0, reading) implies x.0[reading.len() as int] == c by {
            assert(x.0.take(prefix.len() as int)[m] == prefix[m]);
        }
        lemma_pick(v, node, reading, 0, pred, c);
        match v.child(node, c) {
            None => {
                assert(v.node_for(longer) is None);
                lemma_no_more_matches(v, prefix, m + 1, prefix.len() as int);
                assert(prefix.take(prefix.len() as int) =~= prefix);
            },
            Some(child) => {
                assert(v.is_child(node, c, child));
                walk_laws::lemma_tree(v);
                assert(v.node_ok(node));
                assert(v.node_for(longer) == Some(child));
                let own = v.own_visits(child, longer, 0, false);
                let rest = v.walk_children(child, longer, 0, false).0;
                lemma_own_list(v, child, longer, 0);
                lemma_filter_none(own, pred);
                Seq::filter_distributes_over_add(own, rest, pred);
                assert(Seq::<(Seq<char>, int)>::empty() + rest.filter(pred) =~= rest.filter(pred));
                lemma_behind(v, prefix, m + 1, child);
            },
        }
    }
}

/// The entries of nodes, node by node.
pub open spec fn entries_of(v: ImageView, nodes: Seq<Option<int>>) -> Seq<Entry>
    decreases nodes.len(),
{
    if nodes.len() == 0 {
        Seq::empty()
    } else {
        (match nodes[0] {
            Some(n) => Seq::new(
                v.value_count(n) as nat,
                |i: int| v.entry(v.value_start(n) + i),
            ),
            None => Seq::empty(),
        }) + entries_of(v, nodes.drop_first())
    }
}

proof fn lemma_entries_concat(v: ImageView, a: Seq<Option<int>>, b: Seq<Option<int>>)
    ensures
        entries_of(v, a + b) == entries_of(v, a) + entries_of(v, b),
    decreases a.len(),
{
    if a.len() == 0 {
        assert(a + b =~= b);
        assert(entries_of(v, a) + entries_of(v, b) =~= entries_of(v, b));
    } else {
        assert((a + b).drop_first() =~= a.drop_first() + b);
        lemma_entries_concat(v, a.drop_first(), b);
        assert(entries_of(v, a + b) =~= entries_of(v, a) + entries_of(v, b));
    }
}

/// The nodes below a node have the entries that a walk passes on there, and no path is
/// too deep where no reading is too long.
proof fn lemma_descendants(v: ImageView, node: int, reading: Seq<char>, depth: int, k: int)
    requires
        0 <= k,
        depth <= strings::utf8_len(reading) + 1,
        v.walk_children(node, reading, k, false).1 is None,
    ensures
        forall|j: int|
            0 <= j < v.descendants(node, depth, k).len() ==> (#[trigger] v.descendants(
                node,
                depth,
                k,
            )[j]) is Some,
        entries_of(v, v.descendants(node, depth, k)) == v.walk_children(
            node,
            reading,
            k,
            false,
        ).0.map_values(visited(v)),
    decreases values::MAX_PREEDIT_BYTES + 1 - depth, v.child_count(node) - k,
{
    let all = v.descendants(node, depth, k);
    if k < v.child_count(node) {
        let child = v.first_child(node) + k;
        let c = walk_laws::label_of(v, node, k);
        let longer = reading.push(c);
        strings::lemma_len_push(reading, c);
        strings::lemma_char_width(c);
        let one = seq![Some(child)];
        let below = v.descendants(child, depth + 1, 0);
        let rest = v.descendants(node, depth, k + 1);
        let walk = v.walk(child, longer, false);
        assert(walk.1 == v.walk_children(child, longer, 0, false).1);
        lemma_descendants(v, child, longer, depth + 1, 0);
        lemma_descendants(v, node, reading, depth, k + 1);
        assert(all == one + below + rest);
        assert forall|j: int| 0 <= j < all.len() implies (#[trigger] all[j]) is Some by {
            if j == 0 {
            } else if j < 1 + below.len() {
                assert(all[j] == below[j - 1]);
            } else {
                assert(all[j] == rest[j - 1 - below.len()]);
            }
        }
        lemma_entries_concat(v, one + below, rest);
        lemma_entries_concat(v, one, below);
        lemma_own_list(v, child, longer, 0);
        let own = v.own_visits(child, longer, 0, false);
        assert(one.drop_first() =~= Seq::empty());
        assert(entries_of(v, one) =~= own.map_values(visited(v))) by {
            reveal_with_fuel(entries_of, 2);
        }
        let a = v.walk_children(child, longer, 0, false).0;
        let b = v.walk_children(node, reading, k + 1, false).0;
        assert(walk.0 == own + a);
        assert(v.walk_children(node, reading, k, false).0 == walk.0 + b);
        assert((own + a + b).map_values(visited(v)) =~= own.map_values(visited(v)) + a.map_values(
            visited(v),
        ) + b.map_values(visited(v)));
    } else {
        assert(all =~= Seq::empty());
        assert(entries_of(v, all) =~= v.walk_children(node, reading, k, false).0.map_values(
            visited(v),
        ));
    }
}

/// A visit of nodes without a fault passes on the first of their entries, as many as
/// its budgets allow.
proof fn lemma_visit(v: ImageView, state: Visit, nodes: Seq<Option<int>>)
    requires
        state.error is None,
        0 <= state.nodes_left,
        0 <= state.entries_left,
        forall|j: int| 0 <= j < nodes.len() ==> (#[trigger] nodes[j]) is Some,
    ensures
        ({
            let done = v.visit(state, nodes);
            let all = entries_of(v, nodes);
            let n = done.entries.len() - state.entries.len();
            &&& done.error is None
            &&& 0 <= n <= all.len()
            &&& done.entries_left == state.entries_left - n
            &&& done.entries_left >= 0
            &&& done.nodes_left >= 0
            &&& done.entries == state.entries + all.take(n)
            &&& done.entries_left > 0 && done.nodes_left > 0 ==> n == all.len()
            &&& done.entries_left > 0 && state.nodes_left >= nodes.len() ==> n == all.len()
        }),
    decreases nodes.len(),
{
    let done = v.visit(state, nodes);
    let all = entries_of(v, nodes);
    if nodes.len() == 0 || state.nodes_left == 0 || state.entries_left == 0 {
        assert(all.take(0) =~= Seq::<Entry>::empty());
        assert(state.entries + Seq::<Entry>::empty() =~= state.entries);
    } else {
        let node = nodes[0]->Some_0;
        assert(nodes[0] is Some);
        let next = v.visit_one(state, nodes[0]);
        let rest = nodes.drop_first();
        assert forall|j: int| 0 <= j < rest.len() implies (#[trigger] rest[j]) is Some by {
            assert(rest[j] == nodes[j + 1]);
        }
        lemma_visit(v, next, rest);
        let own = Seq::new(v.value_count(node) as nat, |i: int| v.entry(v.value_start(node) + i));
        let later = entries_of(v, rest);
        assert(all == own + later);
        let m = next.entries.len() - state.entries.len();
        let n = done.entries.len() - state.entries.len();
        if m < own.len() {
            assert(next.entries_left == 0);
            assert(n == m);
            assert(later.take(0) =~= Seq::<Entry>::empty());
        }
        assert(done.entries =~= state.entries + all.take(n));
    }
}

/// The bounded visit behind a prefix passes on the first of the entries of the walk over
/// the whole dictionary whose reading goes on behind the prefix, in the order of the
/// walk and no more than `entry_budget`. It passes on none where a budget is zero, and
/// all of them where neither budget runs out. It never ends with a fault.
pub proof fn descendants_are_picked_from_the_walk(
    v: ImageView,
    prefix: Seq<char>,
    node_budget: nat,
    entry_budget: nat,
)
    requires
        v.valid(),
        walk_ends(v),
    ensures
        ({
            let all = full_walk(v).filter(behind(prefix)).map_values(visited(v));
            let done = v.visit_below(prefix, node_budget as int, entry_budget as int);
            let n = done.entries.len();
            &&& done.error is None
            &&& n <= all.len()
            &&& n <= entry_budget
            &&& done.entries == all.take(n as int)
            &&& node_budget == 0 || entry_budget == 0 ==> n == 0
            &&& done.nodes_left > 0 && done.entries_left > 0 ==> n == all.len()
            &&& (v.node_for(prefix) matches Some(node) && node_budget >= v.descendants(
                node,
                1,
                0,
            ).len()) ==> n == if entry_budget < all.len() {
                entry_budget
            } else {
                all.len()
            }
        }),
{
    let root = Seq::<char>::empty();
    let pred = behind(prefix);
    walk_laws::lemma_tree(v);
    assert(prefix.take(0) =~= root);
    lemma_behind(v, prefix, 0, 0);
    let own = v.own_visits(0, root, 0, false);
    let rest = v.walk_children(0, root, 0, false).0;
    lemma_own_list(v, 0, root, 0);
    lemma_filter_none(own, pred);
    Seq::filter_distributes_over_add(own, rest, pred);
    assert(Seq::<(Seq<char>, int)>::empty() + rest.filter(pred) =~= rest.filter(pred));
    let all = full_walk(v).filter(pred).map_values(visited(v));
    match v.node_for(prefix) {
        None => {
            assert(all.take(0) =~= Seq::<Entry>::empty());
        },
        Some(node) => {
            lemma_descendants(v, node, prefix, 1, 0);
            let start = Visit {
                entries: Seq::empty(),
                nodes_left: node_budget as int,
                entries_left: entry_budget as int,
                error: None,
            };
            let nodes = v.descendants(node, 1, 0);
            lemma_visit(v, start, nodes);
            let done = v.visit(start, nodes);
            assert(done.entries =~= all.take(done.entries.len() as int));
        },
    }
}

// ---------------------------------------------------------------------------
// Order.

/// The matches of a query grow longer, never shorter.
pub proof fn matches_never_grow_shorter(v: ImageView, query: Seq<char>, n: int, i: int, j: int)
    requires
        0 <= n <= query.len(),
        strings::utf8_len(query) <= usize::MAX,
        0 <= i <= j < v.prefix_matches(query, n).len(),
    ensures
        v.prefix_matches(query, n)[i].matched_bytes <= v.prefix_matches(query, n)[j].matched_bytes,
        v.prefix_matches(query, n)[j].matched_bytes <= strings::utf8_len(query.take(n)),
    decreases n,
{
    let all = v.prefix_matches(query, n);
    if n > 0 {
        let before = v.prefix_matches(query, n - 1);
        let prefix = query.take(n);
        assert(prefix =~= query.take(n - 1).push(query[n - 1]));
        strings::lemma_len_push(query.take(n - 1), query[n - 1]);
        assert(query =~= prefix + query.skip(n));
        strings::lemma_encode_concat(prefix, query.skip(n));
        if j < before.len() {
            matches_never_grow_shorter(v, query, n - 1, i, j);
            assert(all[i] == before[i] && all[j] == before[j]);
        } else {
            let found = v.node_matches(v.node_for(prefix)->Some_0, strings::utf8_len(prefix));
            assert(all[j] == found[j - before.len()]);
            if i < before.len() {
                matches_never_grow_shorter(v, query, n - 1, i, i);
                assert(all[i] == before[i]);
            } else {
                assert(all[i] == found[i - before.len()]);
            }
        }
    }
}

/// Byte strings are ordered by the first byte that differs.
proof fn lemma_before_at(a: Seq<u8>, b: Seq<u8>, i: int)
    requires
        0 <= i < a.len(),
        i < b.len(),
        a.take(i) == b.take(i),
        a[i] < b[i],
    ensures
        raw::before(a, b),
    decreases i,
{
    if i > 0 {
        assert(a.take(i)[0] == a[0]);
        assert(b.take(i)[0] == b[0]);
        assert(a.drop_first().take(i - 1) =~= a.take(i).drop_first());
        assert(b.drop_first().take(i - 1) =~= b.take(i).drop_first());
        lemma_before_at(a.drop_first(), b.drop_first(), i - 1);
    }
}

/// What is put in front of two byte strings does not change their order.
proof fn lemma_before_behind(head: Seq<u8>, a: Seq<u8>, b: Seq<u8>)
    requires
        raw::before(a, b),
    ensures
        raw::before(head + a, head + b),
    decreases head.len(),
{
    if head.len() == 0 {
        assert(head + a =~= a);
        assert(head + b =~= b);
    } else {
        lemma_before_behind(head.drop_first(), a, b);
        assert((head + a).drop_first() =~= head.drop_first() + a);
        assert((head + b).drop_first() =~= head.drop_first() + b);
    }
}

/// The bytes of a scalar value, as numbers.
proof fn lemma_scalar_bytes(c: u32)
    requires
        c <= 0x10_ffff,
    ensures
        c < 0x80 ==> leading_byte_width_1(c) == c,
        c < 0x800 ==> leading_byte_width_2(c) == 0xc0 + c / 64,
        c < 0x1_0000 ==> leading_byte_width_3(c) == 0xe0 + c / 64 / 64,
        leading_byte_width_4(c) == 0xf0 + c / 64 / 64 / 64,
        last_continuation_byte(c) == 0x80 + c % 64,
        second_last_continuation_byte(c) == 0x80 + (c / 64) % 64,
        third_last_continuation_byte(c) == 0x80 + (c / 64 / 64) % 64,
{
    assert(c < 0x80 ==> (c & 0x7f) as u8 == c) by (bit_vector);
    assert(c < 0x800 ==> (0xc0u8 | ((c >> 6) & 0x1f) as u8) == 0xc0 + c / 64) by (bit_vector);
    assert(c < 0x1_0000 ==> (0xe0u8 | ((c >> 12) & 0x0f) as u8) == 0xe0 + c / 64 / 64)
        by (bit_vector);
    assert(c <= 0x10_ffff ==> (0xf0u8 | ((c >> 18) & 0x7) as u8) == 0xf0 + c / 64 / 64 / 64)
        by (bit_vector);
    assert((0x80u8 | (c & 0x3f) as u8) == 0x80 + c % 64) by (bit_vector);
    assert((0x80u8 | ((c >> 6) & 0x3f) as u8) == 0x80 + (c / 64) % 64) by (bit_vector);
    assert((0x80u8 | ((c >> 12) & 0x3f) as u8) == 0x80 + (c / 64 / 64) % 64) by (bit_vector);
}

/// Whether bytes start with those of a scalar value.
spec fn encodes(a: Seq<u8>, c: int) -> bool {
    &&& a.len() > 0
    &&& c < 0x80 ==> a[0] == c
    &&& 0x80 <= c < 0x800 ==> a.len() > 1 && a[0] == 0xc0 + c / 64 && a[1] == 0x80 + c % 64
    &&& 0x800 <= c < 0x1_0000 ==> a.len() > 2 && a[0] == 0xe0 + c / 64 / 64 && a[1] == 0x80 + (c
        / 64) % 64 && a[2] == 0x80 + c % 64
    &&& 0x1_0000 <= c ==> a.len() > 3 && a[0] == 0xf0 + c / 64 / 64 / 64 && a[1] == 0x80 + (c / 64
        / 64) % 64 && a[2] == 0x80 + (c / 64) % 64 && a[3] == 0x80 + c % 64
}

proof fn lemma_encodes(c: u32, x: Seq<u8>)
    requires
        is_scalar(c),
    ensures
        encodes(encode_scalar(c) + x, c as int),
{
    lemma_scalar_bytes(c);
    let s = encode_scalar(c);
    let a = s + x;
    assert(s.len() > 0 && a[0] == s[0]);
    if c < 0x80 {
        assert(s == seq![leading_byte_width_1(c)]);
    } else if c < 0x800 {
        assert(s == seq![leading_byte_width_2(c), last_continuation_byte(c)]);
        assert(a[1] == s[1]);
    } else if c < 0x1_0000 {
        assert(s == seq![
            leading_byte_width_3(c),
            second_last_continuation_byte(c),
            last_continuation_byte(c),
        ]);
        assert(a[1] == s[1] && a[2] == s[2]);
    } else {
        assert(s == seq![
            leading_byte_width_4(c),
            third_last_continuation_byte(c),
            second_last_continuation_byte(c),
            last_continuation_byte(c),
        ]);
        assert(a[1] == s[1] && a[2] == s[2] && a[3] == s[3]);
    }
}

/// Numbers are ordered by their digits.
proof fn lemma_digits(c: int, d: int)
    requires
        0 <= c <= d,
    ensures
        0 <= c / 64 <= d / 64,
        c / 64 == d / 64 && c < d ==> c % 64 < d % 64,
        c / 64 == d / 64 && c % 64 == d % 64 ==> c == d,
        c / 64 == d / 64 ==> c % 64 <= d % 64,
{
}

/// Of two values that are encoded in a different number of bytes, the smaller one has
/// the smaller first byte.
proof fn lemma_first_bytes(a: Seq<u8>, b: Seq<u8>, c: int, d: int)
    requires
        encodes(a, c),
        encodes(b, d),
        0 <= c < d <= 0x10_ffff,
        c < 0x80 || (c < 0x800 && 0x800 <= d) || (c < 0x1_0000 && 0x1_0000 <= d),
    ensures
        a[0] < b[0],
{
}

/// Bytes are ordered by the first of the scalar values that they start with.
proof fn lemma_encodes_before(a: Seq<u8>, b: Seq<u8>, c: int, d: int)
    requires
        encodes(a, c),
        encodes(b, d),
        0 <= c < d <= 0x10_ffff,
    ensures
        raw::before(a, b),
{
    assert(a.take(0) =~= b.take(0));
    if c < 0x80 || (c < 0x800 && 0x800 <= d) || (c < 0x1_0000 && 0x1_0000 <= d) {
        lemma_first_bytes(a, b, c, d);
        lemma_before_at(a, b, 0);
    } else {
        let (c1, d1) = (c / 64, d / 64);
        let (c2, d2) = (c1 / 64, d1 / 64);
        lemma_digits(c, d);
        lemma_digits(c1, d1);
        lemma_digits(c2, d2);
        if c < 0x800 {
            lemma_two_bytes(a, b);
        } else if c < 0x1_0000 {
            lemma_three_bytes(a, b);
        } else {
            lemma_four_bytes(a, b);
        }
    }
}

proof fn lemma_two_bytes(a: Seq<u8>, b: Seq<u8>)
    requires
        a.len() > 1,
        b.len() > 1,
        a[0] < b[0] || (a[0] == b[0] && a[1] < b[1]),
    ensures
        raw::before(a, b),
{
    assert(a.take(0) =~= b.take(0));
    if a[0] < b[0] {
        lemma_before_at(a, b, 0);
    } else {
        assert(a.take(1) =~= b.take(1));
        lemma_before_at(a, b, 1);
    }
}

proof fn lemma_three_bytes(a: Seq<u8>, b: Seq<u8>)
    requires
        a.len() > 2,
        b.len() > 2,
        a[0] < b[0] || (a[0] == b[0] && (a[1] < b[1] || (a[1] == b[1] && a[2] < b[2]))),
    ensures
        raw::before(a, b),
{
    if a[0] < b[0] || a[1] < b[1] {
        lemma_two_bytes(a, b);
    } else {
        assert(a.take(2) =~= b.take(2));
        lemma_before_at(a, b, 2);
    }
}

proof fn lemma_four_bytes(a: Seq<u8>, b: Seq<u8>)
    requires
        a.len() > 3,
        b.len() > 3,
        a[0] < b[0] || (a[0] == b[0] && (a[1] < b[1] || (a[1] == b[1] && (a[2] < b[2] || (a[2]
            == b[2] && a[3] < b[3]))))),
    ensures
        raw::before(a, b),
{
    if a[0] < b[0] || a[1] < b[1] || a[2] < b[2] {
        lemma_three_bytes(a, b);
    } else {
        assert(a.take(3) =~= b.take(3));
        lemma_before_at(a, b, 3);
    }
}

/// Characters are ordered by their scalar values.
proof fn lemma_char_order(a: char, b: char)
    ensures
        a < b <==> (a as u32) < (b as u32),
        a as u32 <= 0x10_ffff,
{
}

/// Texts are ordered by their characters as they are by the bytes of their encodings.
proof fn lemma_order_of_bytes(a: Seq<char>, b: Seq<char>)
    requires
        strings::precedes(a, b),
    ensures
        raw::before(encode_utf8(a), encode_utf8(b)),
    decreases a.len(),
{
    if a.len() == 0 {
        vstd::utf8::char_is_scalar(b[0]);
    } else {
        let c = a[0] as u32;
        let d = b[0] as u32;
        vstd::utf8::char_is_scalar(a[0]);
        vstd::utf8::char_is_scalar(b[0]);
        let x = encode_utf8(a.drop_first());
        let y = encode_utf8(b.drop_first());
        if a[0] == b[0] {
            lemma_order_of_bytes(a.drop_first(), b.drop_first());
            lemma_before_behind(encode_scalar(c), x, y);
        } else {
            lemma_char_order(a[0], b[0]);
            lemma_char_order(b[0], a[0]);
            lemma_encodes(c, x);
            lemma_encodes(d, y);
            lemma_encodes_before(encode_utf8(a), encode_utf8(b), c as int, d as int);
        }
    }
}

/// Texts are ordered by the first character that differs.
proof fn lemma_precedes_at(a: Seq<char>, b: Seq<char>, i: int)
    requires
        0 <= i < a.len(),
        i < b.len(),
        a.take(i) == b.take(i),
        a[i] < b[i],
    ensures
        strings::precedes(a, b),
    decreases i,
{
    if i > 0 {
        assert(a.take(i)[0] == a[0]);
        assert(b.take(i)[0] == b[0]);
        assert(a.drop_first().take(i - 1) =~= a.take(i).drop_first());
        assert(b.drop_first().take(i - 1) =~= b.take(i).drop_first());
        lemma_precedes_at(a.drop_first(), b.drop_first(), i - 1);
    }
}

/// Whether readings ascend, or stay the same.
pub open spec fn ascending(visits: Seq<(Seq<char>, int)>) -> bool {
    forall|i: int, j: int|
        0 <= i < j < visits.len() ==> (#[trigger] visits[i]).0 == (#[trigger] visits[j]).0
            || strings::precedes(visits[i].0, visits[j].0)
}

/// The readings below the children from the `k`-th one on go on with its label or a later
/// one.
proof fn lemma_later_labels(v: ImageView, node: int, reading: Seq<char>, k: int)
    requires
        v.valid(),
        0 <= node < v.node_count,
        0 <= k,
        strings::utf8_len(reading) <= values::MAX_PREEDIT_BYTES,
    ensures
        k < v.child_count(node) ==> forall|j: int|
            0 <= j < v.walk_children(node, reading, k, false).0.len()
                ==> (#[trigger] v.walk_children(
                node,
                reading,
                k,
                false,
            ).0[j]).0[reading.len() as int] as u32 >= v.label_value(v.first_child(node) + k),
    decreases v.child_count(node) - k,
{
    if k < v.child_count(node) {
        let child = v.first_child(node) + k;
        let c = walk_laws::label_of(v, node, k);
        let longer = reading.push(c);
        walk_laws::lemma_tree(v);
        assert(v.node_ok(node));
        assert(v.node_ok(child));
        assert(c as u32 == v.label_value(child));
        if strings::utf8_len(longer) <= values::MAX_PREEDIT_BYTES {
            lemma_readings_below(v, child, longer);
            lemma_later_labels(v, node, reading, k + 1);
            if k + 1 < v.child_count(node) {
                walk_laws::lemma_sorted(v, node, k, k + 1);
            }
            let below = v.walk(child, longer, false).0;
            let rest = v.walk_children(node, reading, k + 1, false).0;
            let all = v.walk_children(node, reading, k, false).0;
            assert forall|j: int| 0 <= j < all.len() implies (
            #[trigger] all[j]).0[reading.len() as int] as u32 >= v.label_value(child) by {
                if j < below.len() {
                    assert(all[j] == below[j]);
                    assert(all[j].0.take(longer.len() as int)[reading.len() as int]
                        == all[j].0[reading.len() as int]);
                } else {
                    assert(all[j] == rest[j - below.len()]);
                }
            }
        }
    }
}

proof fn lemma_ascending(v: ImageView, node: int, reading: Seq<char>)
    requires
        v.valid(),
        0 <= node < v.node_count,
        strings::utf8_len(reading) <= values::MAX_PREEDIT_BYTES,
    ensures
        ascending(v.walk(node, reading, false).0),
    decreases values::MAX_PREEDIT_BYTES - strings::utf8_len(reading), v.child_count(node) + 1,
{
    lemma_own_list(v, node, reading, 0);
    lemma_ascending_children(v, node, reading, 0);
    lemma_readings_below_children(v, node, reading, 0);
    let own = v.own_visits(node, reading, 0, false);
    let rest = v.walk_children(node, reading, 0, false).0;
    let all = v.walk(node, reading, false).0;
    assert(all == own + rest);
    assert forall|i: int, j: int| 0 <= i < j < all.len() implies (#[trigger] all[i]).0 == (
    #[trigger] all[j]).0 || strings::precedes(all[i].0, all[j].0) by {
        if j < own.len() {
            assert(all[i] == own[i] && all[j] == own[j]);
        } else {
            assert(all[j] == rest[j - own.len()]);
            if i < own.len() {
                assert(all[i] == own[i]);
                strings::lemma_prefix_precedes(all[i].0, all[j].0);
            } else {
                assert(all[i] == rest[i - own.len()]);
            }
        }
    }
}

proof fn lemma_ascending_children(v: ImageView, node: int, reading: Seq<char>, k: int)
    requires
        v.valid(),
        0 <= node < v.node_count,
        0 <= k,
        strings::utf8_len(reading) <= values::MAX_PREEDIT_BYTES,
    ensures
        ascending(v.walk_children(node, reading, k, false).0),
    decreases values::MAX_PREEDIT_BYTES - strings::utf8_len(reading), v.child_count(node) - k,
{
    if k < v.child_count(node) {
        let child = v.first_child(node) + k;
        let c = walk_laws::label_of(v, node, k);
        let longer = reading.push(c);
        let m = reading.len() as int;
        strings::lemma_len_push(reading, c);
        walk_laws::lemma_tree(v);
        assert(v.node_ok(node));
        assert(v.node_ok(child));
        assert(c as u32 == v.label_value(child));
        if strings::utf8_len(longer) <= values::MAX_PREEDIT_BYTES {
            lemma_ascending(v, child, longer);
            lemma_readings_below(v, child, longer);
            let below = v.walk(child, longer, false).0;
            if v.walk(child, longer, false).1 is None {
                lemma_ascending_children(v, node, reading, k + 1);
                lemma_readings_below_children(v, node, reading, k + 1);
                lemma_later_labels(v, node, reading, k + 1);
                if k + 1 < v.child_count(node) {
                    walk_laws::lemma_sorted(v, node, k, k + 1);
                }
                let rest = v.walk_children(node, reading, k + 1, false).0;
                let all = v.walk_children(node, reading, k, false).0;
                assert(all == below + rest);
                assert forall|i: int, j: int| 0 <= i < j < all.len() implies (#[trigger] all[i]).0
                    == (#[trigger] all[j]).0 || strings::precedes(all[i].0, all[j].0) by {
                    if j < below.len() {
                        assert(all[i] == below[i] && all[j] == below[j]);
                    } else {
                        assert(all[j] == rest[j - below.len()]);
                        if i < below.len() {
                            let a = all[i].0;
                            let b = all[j].0;
                            assert(all[i] == below[i]);
                            assert(a.take(longer.len() as int)[m] == a[m]);
                            assert(a.take(m) =~= longer.take(m));
                            assert(longer.take(m) =~= reading);
                            assert(a[m] as u32 == v.label_value(child));
                            assert(b[m] as u32 > a[m] as u32);
                            lemma_char_order(a[m], b[m]);
                            lemma_precedes_at(a, b, m);
                        } else {
                            assert(all[i] == rest[i - below.len()]);
                        }
                    }
                }
            }
        }
    }
}

/// A walk gives readings in the order of their bytes: no reading comes before the one that
/// was given last.
pub proof fn walks_are_in_order(v: ImageView, i: int, j: int)
    requires
        v.valid(),
        0 <= i < j < full_walk(v).len(),
    ensures
        full_walk(v)[i].0 == full_walk(v)[j].0 || raw::before(
            encode_utf8(full_walk(v)[i].0),
            encode_utf8(full_walk(v)[j].0),
        ),
{
    walk_laws::lemma_tree(v);
    lemma_ascending(v, 0, Seq::<char>::empty());
    if full_walk(v)[i].0 != full_walk(v)[j].0 {
        lemma_order_of_bytes(full_walk(v)[i].0, full_walk(v)[j].0);
    }
}

} // verus!
