//! Compiled key maps.

use super::key_spec;
use super::key_spec::{format_slot, parse_key_spec, trigger_of, Scope, Slot, Trigger};
use super::shipped_laws;
use super::vocabulary::{Action, Preset, State, GLOBAL_SECTION, UNBOUND};
use super::{KeyMapError, KeyMapErrorKind};
use crate::config;
use crate::config::{Document, Entry, Section, Value};
use crate::keys::KeyInput;
use crate::strings;
use vstd::prelude::*;

verus! {

/// A compiled key map.
#[derive(Debug, PartialEq, Eq)]
pub struct KeyMap {
    bindings: Vec<(Slot, Action)>,
}

/// Whether the binding at `i` is for a slot.
pub open spec fn binds(bindings: Seq<(Slot, Action)>, slot: Slot, i: int) -> bool {
    0 <= i < bindings.len() && bindings[i].0 == slot
}

/// What a list of bindings binds.
pub open spec fn table(bindings: Seq<(Slot, Action)>) -> Map<Slot, Action> {
    Map::new(
        |slot: Slot| exists|i: int| #[trigger] binds(bindings, slot, i),
        |slot: Slot| bindings[choose|i: int| #[trigger] binds(bindings, slot, i)].1,
    )
}

/// Whether the slots of a list of bindings ascend strictly.
pub open spec fn ascending(bindings: Seq<(Slot, Action)>) -> bool {
    forall|i: int, j: int|
        0 <= i < j < bindings.len() ==> (#[trigger] bindings[i]).0.rank_of() < (
        #[trigger] bindings[j]).0.rank_of()
}

impl View for KeyMap {
    type V = Map<Slot, Action>;

    open spec fn view(&self) -> Map<Slot, Action> {
        table(self.entries())
    }
}

// ---------------------------------------------------------------------------
// What a document binds.

/// What a document cannot be compiled for, and where.
pub struct Fault {
    pub section: Option<Seq<char>>,
    pub key: Option<Seq<char>>,
    pub kind: KeyMapErrorKind,
}

impl KeyMapError {
    pub open spec fn view(&self) -> Fault {
        Fault {
            section: match self.section {
                Some(s) => Some(s@),
                None => None,
            },
            key: match self.key {
                Some(s) => Some(s@),
                None => None,
            },
            kind: self.kind,
        }
    }
}

/// The scope of a section.
pub open spec fn scope_named(name: Seq<char>) -> Option<Scope> {
    if name == GLOBAL_SECTION@ {
        Some(Scope::Global)
    } else {
        match State::named(name) {
            Some(state) => Some(Scope::In(state)),
            None => None,
        }
    }
}

/// A key map, and the slots that a section has bound so far.
pub struct Merging {
    pub map: Map<Slot, Action>,
    pub seen: Seq<Slot>,
}

/// A key map after one entry of a section.
pub open spec fn with_entry(
    m: Merging,
    scope: Scope,
    entry: config::EntryView,
    overriding: bool,
) -> Result<Merging, KeyMapErrorKind> {
    match entry.value {
        config::ValueView::List(_) => Err(KeyMapErrorKind::MalformedValue),
        config::ValueView::Text(name) => match key_spec::key_spec(entry.key) {
            Err(kind) => Err(kind),
            Ok((bits, trigger)) => {
                let slot = Slot { scope, trigger, modifiers: bits & 7 };
                if m.seen.contains(slot) {
                    Err(KeyMapErrorKind::DuplicateBinding)
                } else if name == UNBOUND@ {
                    if overriding {
                        Ok(Merging { map: m.map.remove(slot), seen: m.seen.push(slot) })
                    } else {
                        Err(KeyMapErrorKind::UnknownAction)
                    }
                } else {
                    match Action::named(name) {
                        Some(action) => Ok(
                            Merging { map: m.map.insert(slot, action), seen: m.seen.push(slot) },
                        ),
                        None => Err(KeyMapErrorKind::UnknownAction),
                    }
                }
            },
        },
    }
}

/// A key map after the first `n` entries of a section, or the key at fault.
pub open spec fn with_entries(
    map: Map<Slot, Action>,
    scope: Scope,
    entries: Seq<config::EntryView>,
    n: int,
    overriding: bool,
) -> Result<Merging, (Seq<char>, KeyMapErrorKind)>
    decreases n,
{
    if n <= 0 {
        Ok(Merging { map, seen: Seq::empty() })
    } else {
        match with_entries(map, scope, entries, n - 1, overriding) {
            Err(e) => Err(e),
            Ok(m) => match with_entry(m, scope, entries[n - 1], overriding) {
                Err(kind) => Err((entries[n - 1].key, kind)),
                Ok(after) => Ok(after),
            },
        }
    }
}

/// A key map after one section.
pub open spec fn with_section(
    map: Map<Slot, Action>,
    document: Seq<config::SectionView>,
    name: Seq<char>,
    overriding: bool,
) -> Result<Map<Slot, Action>, Fault> {
    match scope_named(name) {
        None => Err(
            Fault { section: Some(name), key: None, kind: KeyMapErrorKind::UnknownSection },
        ),
        Some(scope) => match config::section_entries(document, name) {
            None => Ok(map),
            Some(entries) => match with_entries(
                map,
                scope,
                entries,
                entries.len() as int,
                overriding,
            ) {
                Err((key, kind)) => Err(Fault { section: Some(name), key: Some(key), kind }),
                Ok(m) => Ok(m.map),
            },
        },
    }
}

/// A key map after the first `n` sections of a document. Within a section a key is
/// bound once; a later section, and a document that overrides, replaces what was
/// bound before.
pub open spec fn with_sections(
    map: Map<Slot, Action>,
    document: Seq<config::SectionView>,
    n: int,
    overriding: bool,
) -> Result<Map<Slot, Action>, Fault>
    decreases n,
{
    if n <= 0 {
        Ok(map)
    } else {
        match with_sections(map, document, n - 1, overriding) {
            Err(fault) => Err(fault),
            Ok(before) => with_section(before, document, document[n - 1].name, overriding),
        }
    }
}

/// What a document compiles to.
pub open spec fn compiled(document: Seq<config::SectionView>) -> Result<Map<Slot, Action>, Fault> {
    match with_sections(Map::empty(), document, document.len() as int, false) {
        Err(fault) => Err(fault),
        Ok(map) => if map.dom() == Set::<Slot>::empty() {
            Err(Fault { section: None, key: None, kind: KeyMapErrorKind::EmptyKeyMap })
        } else {
            Ok(map)
        },
    }
}

/// Whether `r` is what a document compiles to.
pub open spec fn compiles_to(
    document: Seq<config::SectionView>,
    r: Result<KeyMap, KeyMapError>,
) -> bool {
    match compiled(document) {
        Err(fault) => r matches Err(e) && e.view() == fault,
        Ok(map) => r matches Ok(k) && k@ == map && k.wf(),
    }
}

/// Whether `r` is what a source compiles to.
pub open spec fn source_compiles_to(source: Seq<char>, r: Result<KeyMap, KeyMapError>) -> bool {
    match config::parsed(source) {
        Err((line, kind)) => r matches Err(e) && e.section is None && e.key is None && (e.kind
            matches KeyMapErrorKind::Config(p) && p.line == line && p.kind == kind),
        Ok(document) => compiles_to(document, r),
    }
}

/// The action that a key has in a state.
pub open spec fn action_for(map: Map<Slot, Action>, state: State, key: KeyInput) -> Option<
    Action,
> {
    match key_spec::triggered(key) {
        None => None,
        Some(trigger) => {
            let modifiers = key.modifiers.0 & 7;
            let own = Slot { scope: Scope::In(state), trigger, modifiers };
            let shared = Slot { scope: Scope::Global, trigger, modifiers };
            if map.contains_key(own) {
                Some(map[own])
            } else if map.contains_key(shared) {
                Some(map[shared])
            } else {
                None
            }
        },
    }
}

// ---------------------------------------------------------------------------
// Lists of bindings.

/// A binding is found by its slot.
pub proof fn lemma_table_at(bindings: Seq<(Slot, Action)>, i: int)
    requires
        ascending(bindings),
        0 <= i < bindings.len(),
    ensures
        table(bindings).contains_key(bindings[i].0),
        table(bindings)[bindings[i].0] == bindings[i].1,
{
    let slot = bindings[i].0;
    assert(binds(bindings, slot, i));
    let k = choose|k: int| #[trigger] binds(bindings, slot, k);
    assert(bindings[k].0.rank_of() == bindings[i].0.rank_of());
}

proof fn lemma_table_insert(bindings: Seq<(Slot, Action)>, i: int, slot: Slot, action: Action)
    requires
        ascending(bindings),
        0 <= i <= bindings.len(),
        forall|k: int| 0 <= k < i ==> (#[trigger] bindings[k]).0.rank_of() < slot.rank_of(),
        forall|k: int|
            i <= k < bindings.len() ==> slot.rank_of() < (#[trigger] bindings[k]).0.rank_of(),
    ensures
        ascending(bindings.insert(i, (slot, action))),
        table(bindings.insert(i, (slot, action))) == table(bindings).insert(slot, action),
{
    let after = bindings.insert(i, (slot, action));
    assert(ascending(after)) by {
        assert forall|a: int, b: int| 0 <= a < b < after.len() implies (
        #[trigger] after[a]).0.rank_of() < (#[trigger] after[b]).0.rank_of() by {
            if a < i {
                assert(after[a] == bindings[a]);
            } else if a > i {
                assert(after[a] == bindings[a - 1]);
            }
            if b < i {
                assert(after[b] == bindings[b]);
            } else if b > i {
                assert(after[b] == bindings[b - 1]);
            }
        }
    }
    lemma_table_at(after, i);
    assert forall|s: Slot| table(after).contains_key(s) == table(bindings).insert(
        slot,
        action,
    ).contains_key(s) by {
        if table(after).contains_key(s) {
            let k = choose|k: int| #[trigger] binds(after, s, k);
            if k < i {
                assert(binds(bindings, s, k));
            } else if k > i {
                assert(binds(bindings, s, k - 1));
            }
        }
        if table(bindings).contains_key(s) {
            let k = choose|k: int| #[trigger] binds(bindings, s, k);
            if k < i {
                assert(binds(after, s, k));
            } else {
                assert(binds(after, s, k + 1));
            }
        }
    }
    assert forall|s: Slot| table(after).contains_key(s) implies table(after)[s] == table(
        bindings,
    ).insert(slot, action)[s] by {
        let k = choose|k: int| #[trigger] binds(after, s, k);
        lemma_table_at(after, k);
        if k < i {
            lemma_table_at(bindings, k);
        } else if k > i {
            lemma_table_at(bindings, k - 1);
        }
    }
    assert(table(after) =~= table(bindings).insert(slot, action));
}

proof fn lemma_table_update(bindings: Seq<(Slot, Action)>, i: int, slot: Slot, action: Action)
    requires
        ascending(bindings),
        0 <= i < bindings.len(),
        bindings[i].0 == slot,
    ensures
        ascending(bindings.update(i, (slot, action))),
        table(bindings.update(i, (slot, action))) == table(bindings).insert(slot, action),
{
    let after = bindings.update(i, (slot, action));
    assert(forall|k: int| 0 <= k < after.len() ==> (#[trigger] after[k]).0 == bindings[k].0);
    assert forall|s: Slot| table(after).contains_key(s) == table(bindings).insert(
        slot,
        action,
    ).contains_key(s) by {
        if table(after).contains_key(s) {
            let k = choose|k: int| #[trigger] binds(after, s, k);
            assert(binds(bindings, s, k));
        }
        if table(bindings).contains_key(s) {
            let k = choose|k: int| #[trigger] binds(bindings, s, k);
            assert(binds(after, s, k));
        }
        assert(binds(after, slot, i));
    }
    assert forall|s: Slot| table(after).contains_key(s) implies table(after)[s] == table(
        bindings,
    ).insert(slot, action)[s] by {
        let k = choose|k: int| #[trigger] binds(after, s, k);
        lemma_table_at(after, k);
        lemma_table_at(bindings, k);
    }
    assert(table(after) =~= table(bindings).insert(slot, action));
}

proof fn lemma_table_remove(bindings: Seq<(Slot, Action)>, i: int)
    requires
        ascending(bindings),
        0 <= i < bindings.len(),
    ensures
        ascending(bindings.remove(i)),
        table(bindings.remove(i)) == table(bindings).remove(bindings[i].0),
{
    let after = bindings.remove(i);
    let slot = bindings[i].0;
    assert(ascending(after)) by {
        assert forall|a: int, b: int| 0 <= a < b < after.len() implies (
        #[trigger] after[a]).0.rank_of() < (#[trigger] after[b]).0.rank_of() by {
            let x = if a < i {
                a
            } else {
                a + 1
            };
            let y = if b < i {
                b
            } else {
                b + 1
            };
            assert(after[a] == bindings[x] && after[b] == bindings[y]);
        }
    }
    assert forall|s: Slot| table(after).contains_key(s) == table(bindings).remove(
        slot,
    ).contains_key(s) by {
        if table(after).contains_key(s) {
            let k = choose|k: int| #[trigger] binds(after, s, k);
            let x = if k < i {
                k
            } else {
                k + 1
            };
            assert(after[k] == bindings[x]);
            assert(binds(bindings, s, x));
            assert(s != slot) by {
                if s == slot {
                    assert(bindings[x].0.rank_of() == bindings[i].0.rank_of());
                }
            }
        }
        if table(bindings).contains_key(s) && s != slot {
            let k = choose|k: int| #[trigger] binds(bindings, s, k);
            if k < i {
                assert(binds(after, s, k));
            } else {
                assert(binds(after, s, k - 1));
            }
        }
    }
    assert forall|s: Slot| table(after).contains_key(s) implies table(after)[s] == table(
        bindings,
    )[s] by {
        let k = choose|k: int| #[trigger] binds(after, s, k);
        lemma_table_at(after, k);
        lemma_table_at(
            bindings,
            if k < i {
                k
            } else {
                k + 1
            },
        );
    }
    assert(table(after) =~= table(bindings).remove(slot));
}

proof fn lemma_table_len(bindings: Seq<(Slot, Action)>)
    requires
        ascending(bindings),
    ensures
        table(bindings).dom().finite(),
        table(bindings).dom().len() == bindings.len(),
    decreases bindings.len(),
{
    if bindings.len() == 0 {
        assert(table(bindings).dom() =~= Set::<Slot>::empty());
    } else {
        let n = bindings.len() - 1;
        let before = bindings.drop_last();
        let (slot, action) = bindings[n];
        assert(ascending(before));
        lemma_table_len(before);
        lemma_table_insert(before, n, slot, action);
        assert(before.insert(n, (slot, action)) =~= bindings);
        assert(!table(before).contains_key(slot)) by {
            if table(before).contains_key(slot) {
                let k = choose|k: int| #[trigger] binds(before, slot, k);
                assert(bindings[k].0.rank_of() < bindings[n].0.rank_of());
            }
        }
        assert(table(bindings).dom() =~= table(before).dom().insert(slot));
    }
}

/// Looks a slot up: whether it is bound, and the place of its binding, or the place
/// that a binding of it would take.
fn search(bindings: &[(Slot, Action)], slot: &Slot) -> (r: (bool, usize))
    requires
        ascending(bindings@),
    ensures
        r.1 <= bindings@.len(),
        r.0 ==> r.1 < bindings@.len() && bindings@[r.1 as int].0 == *slot,
        !r.0 ==> !table(bindings@).contains_key(*slot),
        !r.0 ==> forall|k: int|
            0 <= k < r.1 ==> (#[trigger] bindings@[k]).0.rank_of() < slot.rank_of(),
        !r.0 ==> forall|k: int|
            r.1 <= k < bindings@.len() ==> slot.rank_of() < (
            #[trigger] bindings@[k]).0.rank_of(),
{
    let rank: u64 = slot.rank();
    let mut low: usize = 0;
    let mut high: usize = bindings.len();
    while low < high
        invariant
            low <= high <= bindings@.len(),
            ascending(bindings@),
            rank == slot.rank_of(),
            forall|k: int| 0 <= k < low ==> (#[trigger] bindings@[k]).0.rank_of() < rank,
            forall|k: int|
                high <= k < bindings@.len() ==> rank < (#[trigger] bindings@[k]).0.rank_of(),
        decreases high - low,
    {
        let mid: usize = low + (high - low) / 2;
        let here: u64 = bindings[mid].0.rank();
        if here == rank {
            proof {
                key_spec::lemma_ranks_differ(bindings@[mid as int].0, *slot);
            }
            return (true, mid);
        }
        if here < rank {
            low = mid + 1;
        } else {
            high = mid;
        }
    }
    proof {
        if table(bindings@).contains_key(*slot) {
            let k = choose|k: int| #[trigger] binds(bindings@, *slot, k);
            assert(bindings@[k].0.rank_of() == rank);
        }
    }
    (false, low)
}

/// The texts of an error in a section.
fn fault(section: &str, key: &str, kind: KeyMapErrorKind) -> (e: KeyMapError)
    ensures
        e.view() == (Fault { section: Some(section@), key: Some(key@), kind }),
{
    KeyMapError { section: Some(section.to_owned()), key: Some(key.to_owned()), kind }
}

impl Default for KeyMap {
    fn default() -> (r: Self)
        ensures
            r.wf(),
            r@ == Map::<Slot, Action>::empty(),
    {
        let r = KeyMap { bindings: Vec::new() };
        assert(r@ =~= Map::<Slot, Action>::empty());
        r
    }
}

impl Clone for KeyMap {
    fn clone(&self) -> (r: Self)
        ensures
            r.entries() == self.entries(),
    {
        let mut bindings: Vec<(Slot, Action)> = Vec::new();
        let mut i: usize = 0;
        while i < self.bindings.len()
            invariant
                i <= self.bindings@.len(),
                bindings@ == self.bindings@.take(i as int),
            decreases self.bindings@.len() - i,
        {
            let (slot, action): (Slot, Action) = self.bindings[i];
            bindings.push((slot, action));
            i = i + 1;
            assert(bindings@ =~= self.bindings@.take(i as int));
        }
        assert(self.bindings@.take(i as int) =~= self.bindings@);
        KeyMap { bindings }
    }
}

impl KeyMap {
    /// The bindings in order.
    pub closed spec fn entries(&self) -> Seq<(Slot, Action)> {
        self.bindings@
    }

    /// Whether the bindings are in order, with one for each slot.
    pub open spec fn wf(&self) -> bool {
        ascending(self.entries())
    }

    /// Compiles a shipped preset. Every one of them compiles.
    pub fn preset(preset: Preset) -> (r: Result<Self, KeyMapError>)
        ensures
            source_compiles_to(preset.source_of(), r),
            r is Ok,
    {
        let r: Result<Self, KeyMapError> = KeyMap::parse(preset.source());
        proof {
            shipped_laws::presets_compile(preset, r);
        }
        r
    }

    /// Compiles the key map that is written in `source`.
    pub fn parse(source: &str) -> (r: Result<Self, KeyMapError>)
        ensures
            source_compiles_to(source@, r),
    {
        match config::parse(source) {
            Ok(document) => KeyMap::from_document(&document),
            Err(error) => Err(KeyMapError::from(error)),
        }
    }

    /// Compiles the key map of a document.
    pub fn from_document(document: &Document) -> (r: Result<Self, KeyMapError>)
        ensures
            compiles_to(document@, r),
    {
        let mut map: KeyMap = KeyMap::default();
        if let Err(e) = map.merge(document, false) {
            return Err(e);
        }
        proof {
            lemma_table_len(map.bindings@);
        }
        if map.bindings.len() == 0 {
            assert(map@.dom() =~= Set::<Slot>::empty());
            return Err(
                KeyMapError { section: None, key: None, kind: KeyMapErrorKind::EmptyKeyMap },
            );
        }
        Ok(map)
    }

    /// Lays a document over the map. A key that it binds replaces what was bound in
    /// the same scope, and [`UNBOUND`] takes a binding away. A document with a fault
    /// changes nothing.
    pub fn apply_overrides(&mut self, document: &Document) -> (r: Result<(), KeyMapError>)
        requires
            old(self).wf(),
        ensures
            final(self).wf(),
            match with_sections(old(self)@, document@, document@.len() as int, true) {
                Err(fault) => r matches Err(e) && e.view() == fault && final(self).entries()
                    == old(self).entries(),
                Ok(map) => r is Ok && final(self)@ == map,
            },
    {
        let mut candidate: KeyMap = self.clone();
        match candidate.merge(document, true) {
            Ok(()) => {
                *self = candidate;
                Ok(())
            },
            Err(e) => Err(e),
        }
    }

    /// The number of bindings.
    pub fn len(&self) -> (n: usize)
        requires
            self.wf(),
        ensures
            n == self@.dom().len(),
            n == self.entries().len(),
    {
        proof {
            lemma_table_len(self.bindings@);
        }
        self.bindings.len()
    }

    /// Whether nothing is bound.
    pub fn is_empty(&self) -> (r: bool)
        ensures
            r == (self.entries().len() == 0),
    {
        self.bindings.len() == 0
    }

    /// The action of a key in a state. A binding for the state goes before one for
    /// every state.
    pub fn lookup(&self, state: State, key: &KeyInput) -> (r: Option<Action>)
        requires
            self.wf(),
        ensures
            r == action_for(self@, state, *key),
    {
        let Some(trigger) = trigger_of(key) else {
            return None;
        };
        let modifiers: u8 = key.modifiers.without_locks().0;
        match self.find(Scope::In(state), trigger, modifiers) {
            Some(action) => Some(action),
            None => self.find(Scope::Global, trigger, modifiers),
        }
    }

    /// Every binding in order: its state, or none for every state, its key as it is
    /// written, and its action.
    pub fn bindings(&self) -> (r: Vec<(Option<State>, String, Action)>)
        ensures
            r@.len() == self.entries().len(),
            forall|i: int|
                0 <= i < r@.len() ==> {
                    let (slot, action) = self.entries()[i];
                    &&& (#[trigger] r@[i]).0 == (match slot.scope {
                        Scope::Global => None::<State>,
                        Scope::In(state) => Some(state),
                    })
                    &&& r@[i].1@ == key_spec::slot_text(slot)
                    &&& r@[i].2 == action
                },
    {
        let mut r: Vec<(Option<State>, String, Action)> = Vec::new();
        let mut i: usize = 0;
        while i < self.bindings.len()
            invariant
                i <= self.bindings@.len(),
                r@.len() == i,
                forall|k: int|
                    0 <= k < i ==> {
                        let (slot, action) = self.bindings@[k];
                        &&& (#[trigger] r@[k]).0 == (match slot.scope {
                            Scope::Global => None::<State>,
                            Scope::In(state) => Some(state),
                        })
                        &&& r@[k].1@ == key_spec::slot_text(slot)
                        &&& r@[k].2 == action
                    },
            decreases self.bindings@.len() - i,
        {
            let (slot, action): (Slot, Action) = self.bindings[i];
            let scope: Option<State> = match slot.scope {
                Scope::Global => None,
                Scope::In(state) => Some(state),
            };
            r.push((scope, format_slot(&slot), action));
            i = i + 1;
        }
        r
    }

    /// The action of a slot.
    pub fn find(&self, scope: Scope, trigger: Trigger, modifiers: u8) -> (r: Option<Action>)
        requires
            self.wf(),
        ensures
            ({
                let slot = Slot { scope, trigger, modifiers };
                r == (if self@.contains_key(slot) {
                    Some(self@[slot])
                } else {
                    None
                })
            }),
    {
        let slot = Slot { scope, trigger, modifiers };
        let (found, index): (bool, usize) = search(&self.bindings, &slot);
        if found {
            proof {
                lemma_table_at(self.bindings@, index as int);
            }
            Some(self.bindings[index].1)
        } else {
            None
        }
    }

    /// Reads the sections of a document into the map.
    fn merge(&mut self, document: &Document, overriding: bool) -> (r: Result<(), KeyMapError>)
        requires
            old(self).wf(),
        ensures
            final(self).wf(),
            match with_sections(old(self)@, document@, document@.len() as int, overriding) {
                Err(fault) => r matches Err(e) && e.view() == fault,
                Ok(map) => r is Ok && final(self)@ == map,
            },
    {
        let ghost start = self@;
        let sections: &[Section] = document.sections();
        let mut i: usize = 0;
        while i < sections.len()
            invariant
                i <= sections@.len(),
                config::section_views(sections@) == document@,
                self.wf(),
                start == old(self)@,
                with_sections(start, document@, i as int, overriding) == Ok::<
                    Map<Slot, Action>,
                    Fault,
                >(self@),
            decreases sections@.len() - i,
        {
            let name: &str = sections[i].name.as_str();
            assert(document@[i as int].name == name@);
            let r = self.merge_section(document, name, overriding);
            if r.is_err() {
                proof {
                    lemma_fault_stays(
                        start,
                        document@,
                        i + 1,
                        document@.len() as int,
                        overriding,
                    );
                }
                return r;
            }
            i = i + 1;
        }
        Ok(())
    }

    /// Reads one section of a document into the map.
    fn merge_section(&mut self, document: &Document, name: &str, overriding: bool) -> (r: Result<
        (),
        KeyMapError,
    >)
        requires
            old(self).wf(),
        ensures
            final(self).wf(),
            match with_section(old(self)@, document@, name@, overriding) {
                Err(fault) => r matches Err(e) && e.view() == fault,
                Ok(map) => r is Ok && final(self)@ == map,
            },
    {
        let scope: Scope = if strings::same_text(name, GLOBAL_SECTION) {
            Scope::Global
        } else {
            match State::from_section(name) {
                Some(state) => Scope::In(state),
                None => {
                    return Err(
                        KeyMapError {
                            section: Some(name.to_owned()),
                            key: None,
                            kind: KeyMapErrorKind::UnknownSection,
                        },
                    );
                },
            }
        };
        let Some(entries) = document.section(name) else {
            return Ok(());
        };
        let ghost views = config::entry_views(entries@);
        let ghost start = self@;
        let mut seen: Vec<Slot> = Vec::new();
        let mut i: usize = 0;
        while i < entries.len()
            invariant
                i <= entries@.len(),
                views == config::entry_views(entries@),
                scope_named(name@) == Some(scope),
                config::section_entries(document@, name@) == Some(views),
                start == old(self)@,
                self.wf(),
                match with_entries(start, scope, views, i as int, overriding) {
                    Ok(m) => m.map == self@ && m.seen == seen@,
                    Err(_) => false,
                },
            decreases entries@.len() - i,
        {
            assert(views[i as int] == entries@[i as int].view());
            let r = self.merge_entry(scope, &entries[i], &mut seen, overriding);
            if let Err(kind) = r {
                proof {
                    lemma_entry_fault_stays(
                        start,
                        scope,
                        views,
                        i + 1,
                        views.len() as int,
                        overriding,
                    );
                }
                return Err(fault(name, entries[i].key.as_str(), kind));
            }
            i = i + 1;
        }
        Ok(())
    }

    /// Reads one entry of a section into the map.
    fn merge_entry(
        &mut self,
        scope: Scope,
        entry: &Entry,
        seen: &mut Vec<Slot>,
        overriding: bool,
    ) -> (r: Result<(), KeyMapErrorKind>)
        requires
            old(self).wf(),
        ensures
            final(self).wf(),
            match with_entry(
                Merging { map: old(self)@, seen: old(seen)@ },
                scope,
                entry.view(),
                overriding,
            ) {
                Err(kind) => r == Err::<(), KeyMapErrorKind>(kind),
                Ok(m) => r is Ok && final(self)@ == m.map && final(seen)@ == m.seen,
            },
    {
        let name: &str = match &entry.value {
            Value::Text(text) => text.as_str(),
            Value::List(_) => {
                return Err(KeyMapErrorKind::MalformedValue);
            },
        };
        let (modifiers, trigger) = match parse_key_spec(entry.key.as_str()) {
            Ok(key) => key,
            Err(kind) => {
                return Err(kind);
            },
        };
        let slot = Slot { scope, trigger, modifiers: modifiers.without_locks().0 };
        let mut i: usize = 0;
        while i < seen.len()
            invariant
                i <= seen@.len(),
                seen@ == old(seen)@,
                self.wf(),
                entry.view().value == config::ValueView::Text(name@),
                key_spec::key_spec(entry.view().key) matches Ok((bits, t)) && slot == (Slot {
                    scope,
                    trigger: t,
                    modifiers: bits & 7,
                }),
                forall|k: int| 0 <= k < i ==> #[trigger] seen@[k] != slot,
            decreases seen@.len() - i,
        {
            if seen[i] == slot {
                assert(seen@[i as int] == slot);
                return Err(KeyMapErrorKind::DuplicateBinding);
            }
            i = i + 1;
        }
        assert(!seen@.contains(slot));
        if strings::same_text(name, UNBOUND) {
            if !overriding {
                return Err(KeyMapErrorKind::UnknownAction);
            }
            seen.push(slot);
            self.remove(&slot);
            return Ok(());
        }
        let Some(action) = Action::from_name(name) else {
            return Err(KeyMapErrorKind::UnknownAction);
        };
        seen.push(slot);
        self.insert(slot, action);
        Ok(())
    }

    /// Binds a slot.
    fn insert(&mut self, slot: Slot, action: Action)
        requires
            old(self).wf(),
        ensures
            final(self).wf(),
            final(self)@ == old(self)@.insert(slot, action),
    {
        let (found, index): (bool, usize) = search(&self.bindings, &slot);
        if found {
            proof {
                lemma_table_update(self.bindings@, index as int, slot, action);
            }
            self.bindings.set(index, (slot, action));
        } else {
            proof {
                lemma_table_insert(self.bindings@, index as int, slot, action);
            }
            self.bindings.insert(index, (slot, action));
        }
    }

    /// Takes the binding of a slot away.
    fn remove(&mut self, slot: &Slot)
        requires
            old(self).wf(),
        ensures
            final(self).wf(),
            final(self)@ == old(self)@.remove(*slot),
    {
        let (found, index): (bool, usize) = search(&self.bindings, slot);
        if found {
            proof {
                lemma_table_remove(self.bindings@, index as int);
            }
            self.bindings.remove(index);
        } else {
            assert(self@.remove(*slot) =~= self@);
        }
    }
}

/// A section at fault is a fault of the document.
proof fn lemma_fault_stays(
    map: Map<Slot, Action>,
    document: Seq<config::SectionView>,
    m: int,
    n: int,
    overriding: bool,
)
    requires
        0 <= m <= n,
        with_sections(map, document, m, overriding) is Err,
    ensures
        with_sections(map, document, n, overriding) == with_sections(map, document, m, overriding),
    decreases n - m,
{
    if m < n {
        lemma_fault_stays(map, document, m, n - 1, overriding);
    }
}

/// An entry at fault is a fault of the section.
proof fn lemma_entry_fault_stays(
    map: Map<Slot, Action>,
    scope: Scope,
    entries: Seq<config::EntryView>,
    m: int,
    n: int,
    overriding: bool,
)
    requires
        0 <= m <= n,
        with_entries(map, scope, entries, m, overriding) is Err,
    ensures
        with_entries(map, scope, entries, n, overriding) == with_entries(
            map,
            scope,
            entries,
            m,
            overriding,
        ),
    decreases n - m,
{
    if m < n {
        lemma_entry_fault_stays(map, scope, entries, m, n - 1, overriding);
    }
}

} // verus!
