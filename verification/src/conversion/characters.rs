//! A set of characters in a table of a fixed size.
//!
//! A character is kept as its number plus one, so that zero is an empty slot. It
//! stands in the first slot that was empty when it came, counted around the table
//! from the slot that its number falls to.

use vstd::prelude::*;

verus! {

/// The key of a character.
pub open spec fn key_of(c: char) -> u32 {
    (c as u32 + 1) as u32
}

/// The slot that a key falls to.
pub open spec fn home(key: u32, size: int) -> int {
    (((key as int * 2_654_435_761) % 0x1_0000_0000) as int) % size
}

/// The slot that is looked at after `k` others.
pub open spec fn slot(key: u32, size: int, k: int) -> int {
    (home(key, size) + k) % size
}

/// Whether a key is looked for in the slot at `k` and no further: it is there, or the
/// slot is empty, and neither held of the slots before.
pub open spec fn stops_at(table: Seq<u32>, key: u32, k: int) -> bool {
    &&& 0 <= k < table.len()
    &&& table[slot(key, table.len() as int, k)] == key || table[slot(key, table.len() as int, k)]
        == 0
    &&& forall|j: int|
        0 <= j < k ==> table[#[trigger] slot(key, table.len() as int, j)] != key
            && table[slot(key, table.len() as int, j)] != 0
}

/// Whether a character is in a table.
pub open spec fn holds(table: Seq<u32>, c: char) -> bool {
    exists|i: int| 0 <= i < table.len() && #[trigger] table[i] == key_of(c)
}

/// Whether a table has an empty slot.
pub open spec fn has_room(table: Seq<u32>) -> bool {
    exists|i: int| 0 <= i < table.len() && #[trigger] table[i] == 0
}

/// Whether every key of a table is found where it is looked for.
pub open spec fn reachable(table: Seq<u32>) -> bool {
    forall|i: int|
        0 <= i < table.len() && #[trigger] table[i] != 0 ==> exists|k: int| #[trigger]
            stops_at(table, table[i], k) && slot(table[i], table.len() as int, k) == i
}

/// A table after a character was put in, and whether it was new to the table.
pub open spec fn inserted(table: Seq<u32>, c: char) -> (Seq<u32>, bool) {
    let key = key_of(c);
    if exists|k: int| #[trigger] stops_at(table, key, k) {
        let k = choose|k: int| #[trigger] stops_at(table, key, k);
        let i = slot(key, table.len() as int, k);
        if table[i] == key {
            (table, false)
        } else {
            (table.update(i, key), true)
        }
    } else {
        (table, false)
    }
}

/// The search for a key stops at one place only.
proof fn lemma_stops_once(table: Seq<u32>, key: u32, a: int, b: int)
    requires
        stops_at(table, key, a),
        stops_at(table, key, b),
    ensures
        a == b,
{
    let n = table.len() as int;
    if a < b {
        assert(table[slot(key, n, a)] != key);
    }
    if b < a {
        assert(table[slot(key, n, b)] != key);
    }
}

/// A slot of the table.
pub proof fn lemma_slot(key: u32, size: int, k: int)
    requires
        size > 0,
        k >= 0,
    ensures
        0 <= slot(key, size, k) < size,
        0 <= home(key, size) < size,
{
    vstd::arithmetic::div_mod::lemma_mod_bound((key as int * 2_654_435_761) % 0x1_0000_0000, size);
    vstd::arithmetic::div_mod::lemma_mod_bound(home(key, size) + k, size);
}

/// The slots are gone through one after the other.
proof fn lemma_next_slot(key: u32, size: int, k: int)
    requires
        size > 0,
        k >= 0,
    ensures
        slot(key, size, k + 1) == (slot(key, size, k) + 1) % size,
        slot(key, size, 0) == home(key, size),
{
    lemma_slot(key, size, k);
    vstd::arithmetic::div_mod::lemma_small_mod(home(key, size) as nat, size as nat);
    vstd::arithmetic::div_mod::lemma_add_mod_noop(home(key, size) + k, 1, size);
    vstd::arithmetic::div_mod::lemma_mod_twice(home(key, size) + k, size);
    vstd::arithmetic::div_mod::lemma_add_mod_noop(slot(key, size, k), 1, size);
}

/// Every slot is gone through.
proof fn lemma_all_slots(key: u32, size: int, i: int) -> (k: int)
    requires
        0 <= i < size,
    ensures
        0 <= k < size,
        slot(key, size, k) == i,
{
    lemma_slot(key, size, 0);
    let h = home(key, size);
    let k = if i >= h {
        i - h
    } else {
        i - h + size
    };
    if i >= h {
        vstd::arithmetic::div_mod::lemma_small_mod(i as nat, size as nat);
    } else {
        assert(h + k == i + size);
        vstd::arithmetic::div_mod::lemma_mod_add_multiples_vanish(i, size);
        vstd::arithmetic::div_mod::lemma_small_mod(i as nat, size as nat);
    }
    k
}

/// Puts a character in a table. `false` where it is there already, or where the
/// table is full.
pub fn insert_character(seen: &mut [u32], c: char) -> (r: bool)
    requires
        old(seen)@.len() > 0,
    ensures
        (final(seen)@, r) == inserted(old(seen)@, c),
{
    let key: u32 = c as u32 + 1;
    let size: usize = seen.len();
    let product: u64 = key as u64 * 2_654_435_761u64;
    let mut index: usize = ((product % 0x1_0000_0000u64) as usize) % size;
    let ghost n = size as int;
    proof {
        lemma_next_slot(key, n, 0);
    }
    let mut k: usize = 0;
    while k < size
        invariant
            k <= size,
            size > 0,
            n == size,
            seen@.len() == size,
            seen@ == old(seen)@,
            key == key_of(c),
            k < size ==> index == slot(key, n, k as int),
            index < size,
            forall|j: int|
                0 <= j < k ==> seen@[#[trigger] slot(key, n, j)] != key && seen@[slot(key, n, j)]
                    != 0,
        decreases size - k,
    {
        if seen[index] == key {
            proof {
                assert(stops_at(seen@, key, k as int));
                let other = choose|j: int| #[trigger] stops_at(seen@, key, j);
                lemma_stops_once(seen@, key, k as int, other);
            }
            return false;
        }
        if seen[index] == 0 {
            proof {
                assert(stops_at(seen@, key, k as int));
                let other = choose|j: int| #[trigger] stops_at(seen@, key, j);
                lemma_stops_once(seen@, key, k as int, other);
            }
            seen[index] = key;
            return true;
        }
        proof {
            lemma_next_slot(key, n, k as int);
        }
        index = if index + 1 == size {
            0
        } else {
            index + 1
        };
        k = k + 1;
        proof {
            if k < size {
                lemma_slot(key, n, k as int);
            }
            if index == 0 {
                vstd::arithmetic::div_mod::lemma_mod_self_0(n);
            } else {
                vstd::arithmetic::div_mod::lemma_small_mod(index as nat, n as nat);
            }
        }
    }
    proof {
        assert forall|j: int| !#[trigger] stops_at(seen@, key, j) by {
            if stops_at(seen@, key, j) {
                assert(seen@[slot(key, n, j)] != key);
            }
        }
    }
    false
}

/// Putting a character in tells whether it is new: where every key is found where it
/// is looked for, a character is refused exactly if the table holds it or is full,
/// and afterwards the table holds it and what it held before.
pub proof fn insertion_is_into_a_set(table: Seq<u32>, c: char)
    requires
        table.len() > 0,
        reachable(table),
    ensures
        ({
            let (after, new) = inserted(table, c);
            &&& after.len() == table.len()
            &&& new == (!holds(table, c) && has_room(table))
            &&& reachable(after)
            &&& has_room(table) ==> holds(after, c)
            &&& forall|d: char|
                d != c ==> #[trigger] holds(after, d) == holds(table, d)
            &&& !new ==> after == table
        }),
{
    let key = key_of(c);
    let n = table.len() as int;
    let (after, new) = inserted(table, c);
    if exists|k: int| #[trigger] stops_at(table, key, k) {
        let k = choose|k: int| #[trigger] stops_at(table, key, k);
        let i = slot(key, n, k);
        lemma_slot(key, n, k);
        if table[i] == key {
            assert(holds(table, c));
        } else {
            assert(table[i] == 0);
            assert(has_room(table));
            assert(!holds(table, c)) by {
                if holds(table, c) {
                    let j = choose|j: int| 0 <= j < table.len() && #[trigger] table[j] == key;
                    let m = choose|m: int| #[trigger]
                        stops_at(table, table[j], m) && slot(table[j], n, m) == j;
                    lemma_stops_once(table, key, k, m);
                }
            }
            assert(after[i] == key);
            lemma_insert_reachable(table, key, k);
            assert forall|d: char| d != c implies #[trigger] holds(after, d) == holds(table, d) by {
                lemma_keys_differ(c, d);
                lemma_keys_differ(d, c);
                if holds(after, d) {
                    let j = choose|j: int|
                        0 <= j < after.len() && #[trigger] after[j] == key_of(d);
                    assert(table[j] == key_of(d));
                }
                if holds(table, d) {
                    let j = choose|j: int|
                        0 <= j < table.len() && #[trigger] table[j] == key_of(d);
                    assert(after[j] == key_of(d));
                }
            }
        }
    } else {
        assert(!has_room(table) && !holds(table, c)) by {
            assert forall|i: int| 0 <= i < n implies #[trigger] table[i] != 0 && table[i] != key by {
                let k = lemma_all_slots(key, n, i);
                if table[i] == 0 || table[i] == key {
                    lemma_first_stop(table, key, k);
                }
            }
        }
    }
}

/// No two characters have the same key.
pub proof fn lemma_keys_differ(c: char, d: char)
    ensures
        key_of(c) == key_of(d) ==> c == d,
        key_of(c) != 0,
{
}

/// Where a search could stop, it stops there or before.
proof fn lemma_first_stop(table: Seq<u32>, key: u32, k: int)
    requires
        0 <= k < table.len(),
        table[slot(key, table.len() as int, k)] == key || table[slot(key, table.len() as int, k)]
            == 0,
    ensures
        exists|j: int| #[trigger] stops_at(table, key, j),
    decreases k,
{
    let n = table.len() as int;
    if forall|j: int|
        0 <= j < k ==> table[#[trigger] slot(key, n, j)] != key && table[slot(key, n, j)] != 0 {
        assert(stops_at(table, key, k));
    } else {
        let j = choose|j: int|
            0 <= j < k && !(table[#[trigger] slot(key, n, j)] != key && table[slot(key, n, j)]
                != 0);
        lemma_first_stop(table, key, j);
    }
}

/// A key that is put where its search stops leaves every key reachable.
proof fn lemma_insert_reachable(table: Seq<u32>, key: u32, k: int)
    requires
        reachable(table),
        stops_at(table, key, k),
        table[slot(key, table.len() as int, k)] == 0,
        key != 0,
    ensures
        reachable(table.update(slot(key, table.len() as int, k), key)),
{
    let n = table.len() as int;
    let i = slot(key, n, k);
    lemma_slot(key, n, k);
    let after = table.update(i, key);
    assert forall|j: int| 0 <= j < after.len() && #[trigger] after[j] != 0 implies exists|m: int|
        #[trigger]
        stops_at(after, after[j], m) && slot(after[j], n, m) == j by {
        if j == i {
            assert forall|m: int| 0 <= m < k implies after[#[trigger] slot(key, n, m)] != key
                && after[slot(key, n, m)] != 0 by {
                lemma_slot(key, n, m);
                assert(table[slot(key, n, m)] != 0);
            }
            assert(stops_at(after, key, k));
        } else {
            let other = table[j];
            let m = choose|m: int| #[trigger] stops_at(table, other, m) && slot(other, n, m) == j;
            assert(other != key) by {
                if other == key {
                    lemma_stops_once(table, key, k, m);
                }
            }
            assert forall|q: int| 0 <= q < m implies after[#[trigger] slot(other, n, q)] != other
                && after[slot(other, n, q)] != 0 by {
                lemma_slot(other, n, q);
                assert(table[slot(other, n, q)] != other && table[slot(other, n, q)] != 0);
            }
            assert(stops_at(after, other, m));
        }
    }
}

} // verus!
