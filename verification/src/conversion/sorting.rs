//! Sorting candidates by cost, with candidates of the same cost in the order they
//! had.

use super::{CandidateView, Converter};
use vstd::prelude::*;

verus! {

/// The place of a candidate in a sorted list: behind everything that does not cost
/// more.
pub open spec fn place(sorted: Seq<CandidateView>, c: CandidateView) -> int
    decreases sorted.len(),
{
    if sorted.len() == 0 || sorted.last().cost <= c.cost {
        sorted.len() as int
    } else {
        place(sorted.drop_last(), c)
    }
}

/// A list sorted by cost.
pub open spec fn stable_sorted(list: Seq<CandidateView>) -> Seq<CandidateView>
    decreases list.len(),
{
    if list.len() == 0 {
        Seq::empty()
    } else {
        let before = stable_sorted(list.drop_last());
        before.insert(place(before, list.last()), list.last())
    }
}

/// Whether costs do not fall.
pub open spec fn ascending(list: Seq<CandidateView>) -> bool {
    forall|i: int, j: int|
        0 <= i < j < list.len() ==> (#[trigger] list[i]).cost <= (#[trigger] list[j]).cost
}

proof fn lemma_place(sorted: Seq<CandidateView>, c: CandidateView)
    requires
        ascending(sorted),
    ensures
        0 <= place(sorted, c) <= sorted.len(),
        forall|i: int| 0 <= i < place(sorted, c) ==> (#[trigger] sorted[i]).cost <= c.cost,
        forall|i: int|
            place(sorted, c) <= i < sorted.len() ==> c.cost < (#[trigger] sorted[i]).cost,
    decreases sorted.len(),
{
    if sorted.len() > 0 {
        let last = sorted.len() - 1;
        if sorted.last().cost <= c.cost {
            assert forall|i: int| 0 <= i < sorted.len() implies (#[trigger] sorted[i]).cost
                <= c.cost by {
                if i < last {
                    assert(sorted[i].cost <= sorted[last].cost);
                }
            }
        } else {
            let before = sorted.drop_last();
            lemma_place(before, c);
            assert forall|i: int| 0 <= i < place(sorted, c) implies (#[trigger] sorted[i]).cost
                <= c.cost by {
                assert(before[i] == sorted[i]);
            }
            assert forall|i: int| place(sorted, c) <= i < sorted.len() implies c.cost < (
            #[trigger] sorted[i]).cost by {
                if i < last {
                    assert(before[i] == sorted[i]);
                }
            }
        }
    }
}

/// Sorting puts the costs in order, and neither adds nor loses a candidate.
pub proof fn sorting_orders_and_keeps(list: Seq<CandidateView>)
    ensures
        ascending(stable_sorted(list)),
        stable_sorted(list).len() == list.len(),
        stable_sorted(list).to_multiset() == list.to_multiset(),
    decreases list.len(),
{
    if list.len() == 0 {
        assert(stable_sorted(list) =~= list);
    } else {
        let rest = list.drop_last();
        let before = stable_sorted(rest);
        let c = list.last();
        let p = place(before, c);
        sorting_orders_and_keeps(rest);
        lemma_place(before, c);
        let after = before.insert(p, c);
        assert forall|i: int, j: int| 0 <= i < j < after.len() implies (#[trigger] after[i]).cost
            <= (#[trigger] after[j]).cost by {
            if i < p {
                assert(after[i] == before[i]);
            } else if i > p {
                assert(after[i] == before[i - 1]);
            }
            if j < p {
                assert(after[j] == before[j]);
            } else if j > p {
                assert(after[j] == before[j - 1]);
            }
        }
        broadcast use vstd::seq_lib::group_to_multiset_ensures;

        assert(list =~= rest.push(c));
        assert(after.to_multiset() =~= before.to_multiset().insert(c));
        assert(list.to_multiset() =~= rest.to_multiset().insert(c));
    }
}

/// A list that is in order already stays as it is.
pub proof fn sorted_lists_stay(list: Seq<CandidateView>)
    requires
        ascending(list),
    ensures
        stable_sorted(list) == list,
    decreases list.len(),
{
    if list.len() > 0 {
        let rest = list.drop_last();
        assert(ascending(rest)) by {
            assert forall|i: int, j: int| 0 <= i < j < rest.len() implies (#[trigger] rest[i]).cost
                <= (#[trigger] rest[j]).cost by {
                assert(rest[i] == list[i] && rest[j] == list[j]);
            }
        }
        sorted_lists_stay(rest);
        assert(place(rest, list.last()) == rest.len()) by {
            if rest.len() > 0 {
                assert(list[rest.len() - 1].cost <= list[list.len() - 1].cost);
            }
        }
        assert(rest.insert(rest.len() as int, list.last()) =~= list);
    } else {
        assert(stable_sorted(list) =~= list);
    }
}

/// The candidates of a list with a cost, in order.
pub open spec fn of_cost(list: Seq<CandidateView>, cost: i64) -> Seq<CandidateView>
    decreases list.len(),
{
    if list.len() == 0 {
        Seq::empty()
    } else if list.last().cost == cost {
        of_cost(list.drop_last(), cost).push(list.last())
    } else {
        of_cost(list.drop_last(), cost)
    }
}

proof fn lemma_of_cost_insert(list: Seq<CandidateView>, p: int, c: CandidateView, cost: i64)
    requires
        0 <= p <= list.len(),
        forall|i: int| p <= i < list.len() ==> c.cost < (#[trigger] list[i]).cost,
    ensures
        of_cost(list.insert(p, c), cost) == (if c.cost == cost {
            of_cost(list, cost).push(c)
        } else {
            of_cost(list, cost)
        }),
    decreases list.len(),
{
    let after = list.insert(p, c);
    if p == list.len() {
        assert(after.drop_last() =~= list);
    } else {
        let rest = list.drop_last();
        assert(after.drop_last() =~= rest.insert(p, c));
        assert(after.last() == list.last());
        assert forall|i: int| p <= i < rest.len() implies c.cost < (#[trigger] rest[i]).cost by {
            assert(rest[i] == list[i]);
        }
        assert(c.cost < list[list.len() - 1].cost);
        lemma_of_cost_insert(rest, p, c, cost);
    }
}

/// Candidates of the same cost keep their order.
pub proof fn equal_costs_keep_their_order(list: Seq<CandidateView>, cost: i64)
    ensures
        of_cost(stable_sorted(list), cost) == of_cost(list, cost),
    decreases list.len(),
{
    if list.len() == 0 {
        assert(stable_sorted(list) =~= list);
    } else {
        let rest = list.drop_last();
        let before = stable_sorted(rest);
        let c = list.last();
        sorting_orders_and_keeps(rest);
        lemma_place(before, c);
        equal_costs_keep_their_order(rest, cost);
        lemma_of_cost_insert(before, place(before, c), c, cost);
    }
}

impl Converter {
    /// Sorts the candidates by cost, and keeps the order of those with the same.
    pub fn sort_by_cost(&mut self)
        ensures
            final(self)@ == stable_sorted(old(self)@),
    {
        let ghost start = self@;
        let mut i: usize = 0;
        assert(stable_sorted(start.take(0)) + start.skip(0) =~= start);
        while i < self.candidates.len()
            invariant
                i <= self.candidates@.len(),
                self.candidates@.len() == start.len(),
                self@ == stable_sorted(start.take(i as int)) + start.skip(i as int),
                stable_sorted(start.take(i as int)).len() == i,
            decreases self.candidates@.len() - i,
        {
            let ghost sorted = stable_sorted(start.take(i as int));
            let ghost c = start[i as int];
            let ghost now = self@;
            proof {
                sorting_orders_and_keeps(start.take(i as int));
                lemma_place(sorted, c);
            }
            assert(now[i as int] == c);
            assert(now[i as int] == self.candidates@[i as int]@);
            let cost: i64 = self.candidates[i].cost;
            let mut j: usize = i;
            assert(sorted.take(i as int) =~= sorted);
            while j > 0 && self.candidates[j - 1].cost > cost
                invariant
                    j <= i < self.candidates@.len(),
                    self@ == now,
                    now == sorted + start.skip(i as int),
                    sorted.len() == i,
                    cost == c.cost,
                    place(sorted, c) == place(sorted.take(j as int), c),
                decreases j,
            {
                assert(self@[j - 1] == self.candidates@[j - 1]@);
                assert(sorted.take(j as int).last() == now[j - 1]);
                assert(sorted.take(j as int).drop_last() =~= sorted.take(j - 1));
                j = j - 1;
            }
            proof {
                if j > 0 {
                    assert(self@[j - 1] == self.candidates@[j - 1]@);
                    assert(sorted.take(j as int).last() == now[j - 1]);
                }
            }
            assert(place(sorted, c) == j);
            let candidate = self.candidates.remove(i);
            assert(self@ =~= now.remove(i as int));
            assert(candidate@ == c);
            let ghost shorter = self@;
            self.candidates.insert(j, candidate);
            assert(self@ =~= shorter.insert(j as int, c));
            i = i + 1;
            proof {
                let longer = start.take(i as int);
                assert(longer.drop_last() =~= start.take(i - 1));
                assert(longer.last() == c);
                assert(stable_sorted(longer) == sorted.insert(j as int, c));
                assert(self@ =~= sorted.insert(j as int, c) + start.skip(i as int));
            }
        }
        assert(start.take(i as int) =~= start);
        assert(self@ =~= stable_sorted(start));
    }
}

} // verus!
