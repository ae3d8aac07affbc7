//! Walks over the entries of a valid image.
//!
//! A walk goes depth-first from the root. Its depth is bounded by the longest
//! reading, so that no image, however deep or cyclic, can exhaust the stack.

use super::image;
use super::model;
use super::{Dictionary, Entry, EntryFlags, Error};
use crate::strings;
use crate::values::{FixedStr, MAX_PREEDIT_BYTES};
use vstd::prelude::*;

verus! {

/// One entry that a walk passes on, with its reading.
#[derive(Debug)]
pub struct EntryVisit {
    pub reading: String,
    pub entry_index: usize,
    pub entry: Entry,
}

/// What a walk passed on, and how it ended.
#[derive(Debug)]
pub struct Walk {
    pub visits: Vec<EntryVisit>,
    pub end: Result<(), Error>,
}

/// What a bounded visit passed on, and how it ended.
#[derive(Debug)]
pub struct DescendantEntries {
    pub entries: Vec<Entry>,
    pub end: Result<(), Error>,
}

/// Whether `visits` are the entries that `expected` names.
pub open spec fn visits_are(
    v: image::ImageView,
    visits: Seq<EntryVisit>,
    expected: Seq<(Seq<char>, int)>,
) -> bool {
    &&& visits.len() == expected.len()
    &&& forall|i: int|
        0 <= i < visits.len() ==> (#[trigger] visits[i]).reading@ == expected[i].0
            && visits[i].entry_index == expected[i].1 && visits[i].entry == v.entry(expected[i].1)
}

/// Whether a walk ended as the whole walk `whole` does, or with the last of
/// `limit` entries.
pub open spec fn walk_is(
    v: image::ImageView,
    walk: Walk,
    whole: (Seq<(Seq<char>, int)>, Option<Error>),
    limit: int,
) -> bool {
    if whole.0.len() >= limit {
        walk.end is Ok && visits_are(v, walk.visits@, whole.0.take(limit))
    } else {
        &&& visits_are(v, walk.visits@, whole.0)
        &&& match whole.1 {
            None => walk.end is Ok,
            Some(e) => walk.end == Err::<(), Error>(e),
        }
    }
}

/// How a part of a walk ended.
#[derive(Clone, Copy, PartialEq, Eq, Structural)]
enum Step {
    Done,
    Full,
}

/// Whether a part of a walk that passes on `part` took `before` to `after`.
spec fn advanced(
    before: Seq<(Seq<char>, int)>,
    part: (Seq<(Seq<char>, int)>, Option<Error>),
    limit: int,
    after: Seq<(Seq<char>, int)>,
    r: Result<Step, Error>,
) -> bool {
    if before.len() + part.0.len() >= limit {
        r == Ok::<Step, Error>(Step::Full) && after == (before + part.0).take(limit)
    } else {
        &&& after == before + part.0
        &&& match part.1 {
            None => r == Ok::<Step, Error>(Step::Done),
            Some(e) => r == Err::<Step, Error>(e),
        }
    }
}

impl<'a> Dictionary<'a> {
    /// Passes on the entries of one node.
    fn visit_node(
        &self,
        node_index: usize,
        reading: &FixedStr<MAX_PREEDIT_BYTES>,
        predictions: bool,
        limit: usize,
        visits: &mut Vec<EntryVisit>,
        Ghost(seen): Ghost<Seq<(Seq<char>, int)>>,
    ) -> (r: (Result<Step, Error>, Ghost<Seq<(Seq<char>, int)>>))
        requires
            self@.valid(),
            node_index < self@.node_count,
            visits_are(self@, old(visits)@, seen),
            seen.len() < limit,
        ensures
            visits_are(self@, final(visits)@, r.1@),
            advanced(
                seen,
                (self@.own_visits(node_index as int, reading@, 0, predictions), None),
                limit as int,
                r.1@,
                r.0,
            ),
    {
        let ghost v = self@;
        let ghost mut now = seen;
        let node = self.valid_node(node_index);
        let ghost whole = v.own_visits(node_index as int, reading@, 0, predictions);
        assert(seen + whole =~= now + whole);
        let mut i: usize = 0;
        while i < node.value_count
            invariant
                v == self@,
                v.valid(),
                node_index < v.node_count,
                v.node_ok(node_index as int),
                v.entry_count <= usize::MAX,
                v.node_count <= usize::MAX,
                node.is(v, node_index as int),
                i <= node.value_count,
                visits_are(v, visits@, now),
                now.len() < limit,
                whole == v.own_visits(node_index as int, reading@, 0, predictions),
                seen + whole == now + v.own_visits(
                    node_index as int,
                    reading@,
                    i as int,
                    predictions,
                ),
            decreases node.value_count - i,
        {
            let entry_index: usize = node.value_start + i;
            let entry = self.valid_entry(entry_index);
            let wanted = !predictions || (entry.flags.contains(EntryFlags::prediction())
                && entry.prediction_cost != i32::MAX);
            let ghost rest = v.own_visits(node_index as int, reading@, i + 1, predictions);
            if wanted {
                visits.push(
                    EntryVisit { reading: reading.as_str().to_owned(), entry_index, entry },
                );
                proof {
                    let item = (reading@, entry_index as int);
                    assert(now + (seq![item] + rest) =~= now.push(item) + rest);
                    now = now.push(item);
                }
                if visits.len() >= limit {
                    assert((seen + whole).take(limit as int) =~= now);
                    return (Ok(Step::Full), Ghost(now));
                }
            } else {
                assert(now + (Seq::<(Seq<char>, int)>::empty() + rest) =~= now + rest);
            }
            i = i + 1;
        }
        assert(now + Seq::<(Seq<char>, int)>::empty() =~= now);
        (Ok(Step::Done), Ghost(now))
    }

    /// Passes on the entries of a node and of all nodes below it.
    fn walk_from(
        &self,
        node_index: usize,
        reading: &mut FixedStr<MAX_PREEDIT_BYTES>,
        predictions: bool,
        limit: usize,
        visits: &mut Vec<EntryVisit>,
        Ghost(seen): Ghost<Seq<(Seq<char>, int)>>,
    ) -> (r: (Result<Step, Error>, Ghost<Seq<(Seq<char>, int)>>))
        requires
            self@.valid(),
            node_index < self@.node_count,
            old(reading).wf(),
            visits_are(self@, old(visits)@, seen),
            seen.len() < limit,
        ensures
            r.0 == Ok::<Step, Error>(Step::Done) ==> final(reading)@ == old(reading)@,
            visits_are(self@, final(visits)@, r.1@),
            advanced(
                seen,
                self@.walk(node_index as int, old(reading)@, predictions),
                limit as int,
                r.1@,
                r.0,
            ),
        decreases MAX_PREEDIT_BYTES - strings::utf8_len(old(reading)@),
    {
        let ghost v = self@;
        let ghost start = reading@;
        let ghost whole = v.walk(node_index as int, start, predictions);
        let ghost own = v.own_visits(node_index as int, start, 0, predictions);
        let (step, now) = self.visit_node(
            node_index,
            &*reading,
            predictions,
            limit,
            visits,
            Ghost(seen),
        );
        let ghost mut now = now@;
        match step {
            Ok(Step::Done) => {},
            Ok(Step::Full) => {
                assert((seen + whole.0).take(limit as int) =~= (seen + own).take(limit as int));
                return (Ok(Step::Full), Ghost(now));
            },
            Err(e) => {
                return (Err(e), Ghost(now));
            },
        }
        let node = self.valid_node(node_index);
        let mut k: usize = 0;
        assert(seen + whole.0 =~= now + v.walk_children(
            node_index as int,
            start,
            0,
            predictions,
        ).0);
        while k < node.child_count
            invariant
                v == self@,
                v.valid(),
                node_index < v.node_count,
                v.node_ok(node_index as int),
                v.entry_count <= usize::MAX,
                v.node_count <= usize::MAX,
                node.is(v, node_index as int),
                k <= node.child_count,
                reading@ == start,
                reading.wf(),
                start == old(reading)@,
                visits_are(v, visits@, now),
                now.len() < limit,
                whole == v.walk(node_index as int, start, predictions),
                seen + whole.0 == now + v.walk_children(
                    node_index as int,
                    start,
                    k as int,
                    predictions,
                ).0,
                whole.1 == v.walk_children(node_index as int, start, k as int, predictions).1,
            decreases node.child_count - k,
        {
            let child: usize = node.first_child + k;
            let label = self.valid_label(child);
            let ghost part = v.walk_children(node_index as int, start, k as int, predictions);
            proof {
                strings::lemma_len_push(start, label);
            }
            if reading.push(label).is_err() {
                assert(part.0 =~= Seq::<(Seq<char>, int)>::empty());
                assert(now + part.0 =~= now);
                return (Err(Error::TextOverflow), Ghost(now));
            }
            let ghost longer = reading@;
            let ghost below = v.walk(child as int, longer, predictions);
            let (step, after) = self.walk_from(
                child,
                reading,
                predictions,
                limit,
                visits,
                Ghost(now),
            );
            let ghost after = after@;
            let ghost rest = v.walk_children(node_index as int, start, k + 1, predictions);
            match step {
                Ok(Step::Done) => {},
                Ok(Step::Full) => {
                    assert((seen + whole.0).len() == (now + part.0).len());
                    assert((now + part.0).take(limit as int) =~= (now + below.0).take(
                        limit as int,
                    ));
                    return (Ok(Step::Full), Ghost(after));
                },
                Err(e) => {
                    return (Err(e), Ghost(after));
                },
            }
            let _ = reading.pop_char();
            proof {
                assert(longer.drop_last() =~= start);
                assert(now + (below.0 + rest.0) =~= (now + below.0) + rest.0);
                now = after;
            }
            k = k + 1;
        }
        assert(now + Seq::<(Seq<char>, int)>::empty() =~= now);
        (Ok(Step::Done), Ghost(now))
    }

    /// Walks over the whole trie.
    fn walk(&self, predictions: bool, limit: usize) -> (walk: Walk)
        requires
            self@.valid(),
        ensures
            walk_is(
                self@,
                walk,
                self@.walk(0, Seq::<char>::empty(), predictions),
                limit as int,
            ),
    {
        let ghost whole = self@.walk(0, Seq::<char>::empty(), predictions);
        proof {
            image::lemma_valid_shaped(self@);
        }
        let mut visits: Vec<EntryVisit> = Vec::new();
        if limit == 0 {
            assert(whole.0.take(0) =~= Seq::<(Seq<char>, int)>::empty());
            return Walk { visits, end: Ok(()) };
        }
        let mut reading: FixedStr<MAX_PREEDIT_BYTES> = FixedStr::new();
        let ghost nothing = Seq::<(Seq<char>, int)>::empty();
        let (step, seen) = self.walk_from(
            0,
            &mut reading,
            predictions,
            limit,
            &mut visits,
            Ghost(nothing),
        );
        assert(nothing + whole.0 =~= whole.0);
        match step {
            Ok(_) => Walk { visits, end: Ok(()) },
            Err(e) => Walk { visits, end: Err(e) },
        }
    }

    /// Every entry with its complete reading, in trie order, up to `limit`
    /// entries.
    pub fn visit_entries(&self, limit: usize) -> (walk: Walk)
        requires
            self@.valid(),
        ensures
            walk_is(self@, walk, self@.walk(0, Seq::<char>::empty(), false), limit as int),
    {
        self.walk(false, limit)
    }

    /// Every entry that is worth predicting, with its complete reading and its
    /// ordinal, up to `limit` entries.
    pub fn visit_indexed_prediction_entries(&self, limit: usize) -> (walk: Walk)
        requires
            self@.valid(),
        ensures
            walk_is(self@, walk, self@.walk(0, Seq::<char>::empty(), true), limit as int),
    {
        self.walk(true, limit)
    }

    /// Every entry that is worth predicting, with its complete reading, up to
    /// `limit` entries.
    pub fn visit_prediction_entries(&self, limit: usize) -> (walk: Walk)
        requires
            self@.valid(),
        ensures
            walk_is(self@, walk, self@.walk(0, Seq::<char>::empty(), true), limit as int),
    {
        self.walk(true, limit)
    }

    /// Reads one entry by its ordinal.
    pub fn entry_at(&self, index: usize) -> (r: Result<Entry, Error>)
        requires
            self@.valid(),
        ensures
            index < self@.entry_count ==> r == Ok::<Entry, Error>(self@.entry(index as int)),
            index >= self@.entry_count ==> r == Err::<Entry, Error>(Error::BadEntry),
    {
        if index >= self.entry_count {
            return Err(Error::BadEntry);
        }
        Ok(self.valid_entry(index))
    }

    /// The entries below the node of `reading_prefix`, without those of the
    /// node itself, in depth-first order: at most `entry_budget` entries out of
    /// at most `node_budget` nodes.
    pub fn visit_descendant_entries(
        &self,
        reading_prefix: &str,
        node_budget: usize,
        entry_budget: usize,
    ) -> (r: DescendantEntries)
        requires
            self@.valid(),
        ensures
            ({
                let done = self@.visit_below(
                    reading_prefix@,
                    node_budget as int,
                    entry_budget as int,
                );
                &&& r.entries@ == done.entries
                &&& match done.error {
                    None => r.end is Ok,
                    Some(e) => r.end == Err::<(), Error>(e),
                }
            }),
    {
        let ghost v = self@;
        proof {
            image::lemma_valid_shaped(self@);
        }
        let mut entries: Vec<Entry> = Vec::new();
        assert(entries@ =~= Seq::<Entry>::empty());
        if node_budget == 0 || entry_budget == 0 {
            return DescendantEntries { entries, end: Ok(()) };
        }
        let chars = strings::chars_of(reading_prefix);
        let mut node_index: usize = 0;
        let mut n: usize = 0;
        assert(reading_prefix@.take(0) =~= Seq::<char>::empty());
        while n < chars.len()
            invariant
                v == self@,
                v.valid(),
                chars@ == reading_prefix@,
                n <= chars@.len(),
                node_index < v.node_count,
                v.node_for(reading_prefix@.take(n as int)) == Some(node_index as int),
                entries@ == Seq::<Entry>::empty(),
            decreases chars@.len() - n,
        {
            let node = self.valid_node(node_index);
            let ghost longer = reading_prefix@.take(n + 1);
            assert(longer.drop_last() =~= reading_prefix@.take(n as int));
            let Some(child) = self.find_child(&node, Ghost(node_index as int), chars[n]) else {
                proof {
                    lemma_no_longer_path(v, reading_prefix@, n + 1, reading_prefix@.len() as int);
                    assert(reading_prefix@.take(reading_prefix@.len() as int) =~= reading_prefix@);
                }
                return DescendantEntries { entries, end: Ok(()) };
            };
            node_index = child;
            n = n + 1;
        }
        assert(reading_prefix@.take(n as int) =~= reading_prefix@);
        let mut nodes_left: usize = node_budget;
        let mut entries_left: usize = entry_budget;
        let end = self.descend(
            node_index,
            1,
            &mut nodes_left,
            &mut entries_left,
            &mut entries,
        );
        DescendantEntries { entries, end }
    }

    /// Visits the nodes below one node.
    fn descend(
        &self,
        node_index: usize,
        depth: usize,
        nodes_left: &mut usize,
        entries_left: &mut usize,
        entries: &mut Vec<Entry>,
    ) -> (r: Result<(), Error>)
        requires
            self@.valid(),
            node_index < self@.node_count,
            1 <= depth <= MAX_PREEDIT_BYTES + 1,
        ensures
            visit_state(final(entries)@, *final(nodes_left), *final(entries_left), r)
                == self@.visit(
                visit_state(old(entries)@, *old(nodes_left), *old(entries_left), Ok(())),
                self@.descendants(node_index as int, depth as int, 0),
            ),
        decreases MAX_PREEDIT_BYTES + 1 - depth,
    {
        let ghost v = self@;
        let ghost begin = visit_state(entries@, *nodes_left, *entries_left, Ok(()));
        let ghost whole = v.descendants(node_index as int, depth as int, 0);
        let node = self.valid_node(node_index);
        let mut k: usize = 0;
        while k < node.child_count
            invariant
                v == self@,
                v.valid(),
                node_index < v.node_count,
                1 <= depth <= MAX_PREEDIT_BYTES + 1,
                begin == visit_state(
                    old(entries)@,
                    *old(nodes_left),
                    *old(entries_left),
                    Ok(()),
                ),
                whole == v.descendants(node_index as int, depth as int, 0),
                v.node_ok(node_index as int),
                v.entry_count <= usize::MAX,
                v.node_count <= usize::MAX,
                node.is(v, node_index as int),
                k <= node.child_count,
                v.visit(begin, whole) == v.visit(
                    visit_state(entries@, *nodes_left, *entries_left, Ok(())),
                    v.descendants(node_index as int, depth as int, k as int),
                ),
            decreases node.child_count - k,
        {
            let ghost state = visit_state(entries@, *nodes_left, *entries_left, Ok(()));
            let ghost todo = v.descendants(node_index as int, depth as int, k as int);
            if *nodes_left == 0 || *entries_left == 0 {
                return Ok(());
            }
            if depth >= MAX_PREEDIT_BYTES + 1 {
                proof {
                    assert(todo =~= seq![None::<int>]);
                    assert(todo.drop_first() =~= Seq::<Option<int>>::empty());
                    assert(v.visit(state, todo) == v.visit(
                        v.visit_one(state, todo[0]),
                        todo.drop_first(),
                    ));
                }
                return Err(Error::BadTree);
            }
            let child: usize = node.first_child + k;
            let ghost below = v.descendants(child as int, depth + 1, 0);
            let ghost rest = v.descendants(node_index as int, depth as int, k + 1);
            proof {
                assert(todo =~= seq![Some(child as int)] + below + rest);
                assert(todo.drop_first() =~= below + rest);
                model::lemma_visit_concat(v, v.visit_one(state, Some(child as int)), below, rest);
            }
            self.visit_bounded(child, nodes_left, entries_left, entries);
            match self.descend(child, depth + 1, nodes_left, entries_left, entries) {
                Ok(()) => {},
                Err(e) => {
                    return Err(e);
                },
            }
            k = k + 1;
        }
        Ok(())
    }

    /// Visits one node.
    fn visit_bounded(
        &self,
        node_index: usize,
        nodes_left: &mut usize,
        entries_left: &mut usize,
        entries: &mut Vec<Entry>,
    )
        requires
            self@.valid(),
            node_index < self@.node_count,
            *old(nodes_left) > 0,
            *old(entries_left) > 0,
        ensures
            visit_state(final(entries)@, *final(nodes_left), *final(entries_left), Ok(()))
                == self@.visit_one(
                visit_state(old(entries)@, *old(nodes_left), *old(entries_left), Ok(())),
                Some(node_index as int),
            ),
    {
        let ghost v = self@;
        let node = self.valid_node(node_index);
        let count: usize = if node.value_count < *entries_left {
            node.value_count
        } else {
            *entries_left
        };
        let ghost before = entries@;
        let ghost found = Seq::new(
            count as nat,
            |i: int| v.entry(v.value_start(node_index as int) + i),
        );
        let mut i: usize = 0;
        while i < count
            invariant
                v == self@,
                v.valid(),
                node_index < v.node_count,
                v.node_ok(node_index as int),
                v.entry_count <= usize::MAX,
                v.node_count <= usize::MAX,
                node.is(v, node_index as int),
                count <= node.value_count,
                i <= count,
                found == Seq::new(
                    count as nat,
                    |i: int| v.entry(v.value_start(node_index as int) + i),
                ),
                entries@ == before + found.take(i as int),
            decreases count - i,
        {
            let entry_index: usize = node.value_start + i;
            let entry = self.valid_entry(entry_index);
            entries.push(entry);
            assert(found.take(i + 1) =~= found.take(i as int).push(found[i as int]));
            i = i + 1;
        }
        assert(found.take(i as int) =~= found);
        *nodes_left = *nodes_left - 1;
        *entries_left = *entries_left - count;
    }
}

/// The state of a visit, as executable code holds it.
spec fn visit_state(
    entries: Seq<Entry>,
    nodes_left: usize,
    entries_left: usize,
    end: Result<(), Error>,
) -> model::Visit {
    model::Visit {
        entries,
        nodes_left: nodes_left as int,
        entries_left: entries_left as int,
        error: match end {
            Ok(_) => None,
            Err(e) => Some(e),
        },
    }
}

/// Once no node is left, no longer reading has one.
proof fn lemma_no_longer_path(v: image::ImageView, reading: Seq<char>, n: int, m: int)
    requires
        1 <= n <= m <= reading.len(),
        v.node_for(reading.take(n)) is None,
    ensures
        v.node_for(reading.take(m)) is None,
    decreases m - n,
{
    if n < m {
        lemma_no_longer_path(v, reading, n, m - 1);
        assert(reading.take(m).drop_last() =~= reading.take(m - 1));
    }
}

} // verus!
