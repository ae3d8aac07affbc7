//! What a key does, and what a document binds.

use super::bindings;
use super::key_spec;
use super::key_spec::{Scope, Slot, Trigger};
use super::laws;
use super::vocabulary;
use super::vocabulary::{Action, State, GLOBAL_SECTION};
use crate::config;
use crate::config::{EntryView, SectionView, ValueView};
use crate::keys::{KeyCode, KeyInput};
use vstd::prelude::*;

verus! {

// ---------------------------------------------------------------------------
// Lookups.

/// The key that a key event is: a key that types a character by the character in lower
/// case, any other by its number. A key that is not known is none, and so is a character
/// key without a character.
pub open spec fn pressed(key: KeyInput) -> Option<Trigger> {
    if key.code == KeyCode::Unknown {
        None
    } else if key.code == KeyCode::Char {
        match key.ch {
            Some(c) => Some(
                Trigger::Char(
                    if 'A' <= c && c <= 'Z' {
                        (c as u32 + 32) as char
                    } else {
                        c
                    },
                ),
            ),
            None => None,
        }
    } else {
        Some(Trigger::Code(key.code.number_of()))
    }
}

/// A key does what is bound to it with its modifiers in the state; where nothing is, what
/// is bound to it in every state; and where nothing is bound to it at all, nothing.
pub proof fn keys_do_what_is_bound(bound: Map<Slot, Action>, state: State, key: KeyInput)
    ensures
        match pressed(key) {
            None => bindings::action_for(bound, state, key) is None,
            Some(trigger) => {
                let modifiers = key.modifiers.0 & 7;
                let own = Slot { scope: Scope::In(state), trigger, modifiers };
                let shared = Slot { scope: Scope::Global, trigger, modifiers };
                &&& bound.contains_key(own) ==> bindings::action_for(bound, state, key) == Some(
                    bound[own],
                )
                &&& !bound.contains_key(own) && bound.contains_key(shared) ==> bindings::action_for(
                    bound,
                    state,
                    key,
                ) == Some(bound[shared])
                &&& !bound.contains_key(own) && !bound.contains_key(shared)
                    ==> bindings::action_for(bound, state, key) is None
            },
        },
{
}

// ---------------------------------------------------------------------------
// Entries and sections.

/// Whether an entry binds an action to a slot, or with `None` takes its binding away.
pub open spec fn asks(scope: Scope, entry: EntryView, slot: Slot, action: Option<Action>) -> bool {
    &&& key_spec::key_spec(entry.key) matches Ok((bits, trigger)) && slot == (Slot {
        scope,
        trigger,
        modifiers: bits & 7,
    })
    &&& match action {
        Some(a) => entry.value == ValueView::Text(a.name_of()),
        None => entry.value == ValueView::Text("unbound"@),
    }
}

/// Whether a map binds an action to a slot, or with `None` nothing.
pub open spec fn has(bound: Map<Slot, Action>, slot: Slot, action: Option<Action>) -> bool {
    match action {
        Some(a) => bound.contains_key(slot) && bound[slot] == a,
        None => !bound.contains_key(slot),
    }
}

/// What an entry of a section asks for holds behind the section.
proof fn lemma_entries_bind(
    bound: Map<Slot, Action>,
    scope: Scope,
    entries: Seq<EntryView>,
    n: int,
    overriding: bool,
    k: int,
    slot: Slot,
    action: Option<Action>,
)
    requires
        0 <= k < n <= entries.len(),
        asks(scope, entries[k], slot, action),
        bindings::with_entries(bound, scope, entries, n, overriding) is Ok,
    ensures
        has(bindings::with_entries(bound, scope, entries, n, overriding)->Ok_0.map, slot, action),
        bindings::with_entries(bound, scope, entries, n, overriding)->Ok_0.seen.contains(slot),
    decreases n,
{
    let before = bindings::with_entries(bound, scope, entries, n - 1, overriding)->Ok_0;
    let after = bindings::with_entries(bound, scope, entries, n, overriding)->Ok_0;
    if k < n - 1 {
        lemma_entries_bind(bound, scope, entries, n - 1, overriding, k, slot, action);
        let i = before.seen.index_of(slot);
        assert(after.seen[i] == slot);
    } else {
        match action {
            Some(a) => {
                laws::action_names_round_trip(a);
                vocabulary::lemma_unbound_is_no_action(a);
            },
            None => {},
        }
        assert(after.seen[before.seen.len() as int] == slot);
    }
}

/// A section of one scope leaves the bindings of others alone.
proof fn lemma_other_scopes(
    bound: Map<Slot, Action>,
    scope: Scope,
    entries: Seq<EntryView>,
    n: int,
    overriding: bool,
    slot: Slot,
)
    requires
        0 <= n <= entries.len(),
        slot.scope != scope,
        bindings::with_entries(bound, scope, entries, n, overriding) is Ok,
    ensures
        laws::agree(
            bindings::with_entries(bound, scope, entries, n, overriding)->Ok_0.map,
            bound,
            slot,
        ),
    decreases n,
{
    if n > 0 {
        lemma_other_scopes(bound, scope, entries, n - 1, overriding, slot);
    }
}

/// Two sections with a scope of the same name are one.
proof fn lemma_scopes_differ(a: Seq<char>, b: Seq<char>)
    requires
        bindings::scope_named(a) is Some,
        bindings::scope_named(a) == bindings::scope_named(b),
    ensures
        a == b,
{
    match bindings::scope_named(a)->Some_0 {
        Scope::Global => {},
        Scope::In(state) => {
            assert(a == state.section_of());
            assert(b == state.section_of());
        },
    }
}

/// What the first `n` sections of a document ask for holds behind them.
proof fn lemma_sections_bind(
    bound: Map<Slot, Action>,
    document: Seq<SectionView>,
    n: int,
    overriding: bool,
    i: int,
    k: int,
    scope: Scope,
    slot: Slot,
    action: Option<Action>,
)
    requires
        config::well_formed(document),
        0 <= i < n <= document.len(),
        0 <= k < document[i].entries.len(),
        bindings::scope_named(document[i].name) == Some(scope),
        asks(scope, document[i].entries[k], slot, action),
        bindings::with_sections(bound, document, n, overriding) is Ok,
    ensures
        has(bindings::with_sections(bound, document, n, overriding)->Ok_0, slot, action),
    decreases n,
{
    let before = bindings::with_sections(bound, document, n - 1, overriding)->Ok_0;
    let name = document[n - 1].name;
    config::lemma_find_section(document, name, 0);
    let found = config::find_section(document, name, 0)->Some_0;
    assert(document[n - 1].name == name);
    assert(found == n - 1) by {
        if found < n - 1 {
            assert(document[found].name == document[n - 1].name);
        }
    }
    let entries = document[n - 1].entries;
    assert(config::section_entries(document, name) == Some(entries));
    if i < n - 1 {
        lemma_sections_bind(bound, document, n - 1, overriding, i, k, scope, slot, action);
        let other = bindings::scope_named(name)->Some_0;
        if other == scope {
            lemma_scopes_differ(document[i].name, name);
            assert(document[i].name == document[n - 1].name);
        }
        lemma_other_scopes(before, other, entries, entries.len() as int, overriding, slot);
    } else {
        lemma_entries_bind(
            before,
            scope,
            entries,
            entries.len() as int,
            overriding,
            k,
            slot,
            action,
        );
    }
}

/// A key map binds what its document says: every entry of every section binds its action to
/// its key, in the state of the section or in every state.
pub proof fn documents_bind_what_they_say(
    document: Seq<SectionView>,
    i: int,
    k: int,
    scope: Scope,
    slot: Slot,
    action: Action,
)
    requires
        config::well_formed(document),
        0 <= i < document.len(),
        0 <= k < document[i].entries.len(),
        bindings::scope_named(document[i].name) == Some(scope),
        asks(scope, document[i].entries[k], slot, Some(action)),
        bindings::compiled(document) is Ok,
    ensures
        has(bindings::compiled(document)->Ok_0, slot, Some(action)),
{
    lemma_sections_bind(
        Map::empty(),
        document,
        document.len() as int,
        false,
        i,
        k,
        scope,
        slot,
        Some(action),
    );
}

/// Overrides bind what they say, and take away the bindings of the keys that they unbind.
pub proof fn overrides_bind_what_they_say(
    bound: Map<Slot, Action>,
    document: Seq<SectionView>,
    i: int,
    k: int,
    scope: Scope,
    slot: Slot,
    action: Option<Action>,
)
    requires
        config::well_formed(document),
        0 <= i < document.len(),
        0 <= k < document[i].entries.len(),
        bindings::scope_named(document[i].name) == Some(scope),
        asks(scope, document[i].entries[k], slot, action),
        bindings::with_sections(bound, document, document.len() as int, true) is Ok,
    ensures
        has(
            bindings::with_sections(bound, document, document.len() as int, true)->Ok_0,
            slot,
            action,
        ),
{
    lemma_sections_bind(
        bound,
        document,
        document.len() as int,
        true,
        i,
        k,
        scope,
        slot,
        action,
    );
}

/// A key map binds nothing but what its document says.
pub proof fn nothing_else_is_bound(document: Seq<SectionView>, slot: Slot)
    requires
        bindings::compiled(document) is Ok,
        bindings::compiled(document)->Ok_0.contains_key(slot),
    ensures
        exists|k: int|
            0 <= k < document.len() && laws::section_names(
                document,
                (#[trigger] document[k]).name,
                slot,
            ),
{
    lemma_only_named(document, document.len() as int, slot);
}

proof fn lemma_only_named(document: Seq<SectionView>, n: int, slot: Slot)
    requires
        0 <= n <= document.len(),
        bindings::with_sections(Map::empty(), document, n, false) is Ok,
        bindings::with_sections(Map::empty(), document, n, false)->Ok_0.contains_key(slot),
    ensures
        exists|k: int|
            0 <= k < n && laws::section_names(document, (#[trigger] document[k]).name, slot),
    decreases n,
{
    if n > 0 {
        let before = bindings::with_sections(Map::empty(), document, n - 1, false)->Ok_0;
        let name = document[n - 1].name;
        if before.contains_key(slot) {
            lemma_only_named(document, n - 1, slot);
        } else {
            let scope = bindings::scope_named(name)->Some_0;
            match config::section_entries(document, name) {
                Some(entries) => {
                    lemma_only_entries(before, scope, entries, entries.len() as int, slot);
                    assert(laws::section_names(document, document[n - 1].name, slot));
                },
                None => {},
            }
        }
    }
}

proof fn lemma_only_entries(
    bound: Map<Slot, Action>,
    scope: Scope,
    entries: Seq<EntryView>,
    n: int,
    slot: Slot,
)
    requires
        0 <= n <= entries.len(),
        !bound.contains_key(slot),
        bindings::with_entries(bound, scope, entries, n, false) is Ok,
        bindings::with_entries(bound, scope, entries, n, false)->Ok_0.map.contains_key(slot),
    ensures
        exists|k: int| 0 <= k < n && #[trigger] laws::names(scope, entries[k], slot),
    decreases n,
{
    if n > 0 {
        let before = bindings::with_entries(bound, scope, entries, n - 1, false)->Ok_0;
        if before.map.contains_key(slot) {
            lemma_only_entries(bound, scope, entries, n - 1, slot);
        } else {
            assert(laws::names(scope, entries[n - 1], slot));
        }
    }
}

/// The sections are those for every state and for each state, by their names.
pub proof fn sections_are_for_their_states()
    ensures
        bindings::scope_named("global"@) == Some(Scope::Global),
        bindings::scope_named("idle"@) == Some(Scope::In(State::Idle)),
        bindings::scope_named("composing"@) == Some(Scope::In(State::Composing)),
        bindings::scope_named("converting"@) == Some(Scope::In(State::Converting)),
        bindings::scope_named("predicting"@) == Some(Scope::In(State::Predicting)),
{
    laws::sections_round_trip(State::Idle);
    laws::sections_round_trip(State::Composing);
    laws::sections_round_trip(State::Converting);
    laws::sections_round_trip(State::Predicting);
    assert(GLOBAL_SECTION@ == "global"@);
}

/// The nine actions that choose a candidate choose those of a page in their order, and no
/// other action chooses one.
pub proof fn candidates_are_chosen_in_order(action: Action)
    ensures
        action.offset_of() == match action {
            Action::Candidate1 => Some(0usize),
            Action::Candidate2 => Some(1usize),
            Action::Candidate3 => Some(2usize),
            Action::Candidate4 => Some(3usize),
            Action::Candidate5 => Some(4usize),
            Action::Candidate6 => Some(5usize),
            Action::Candidate7 => Some(6usize),
            Action::Candidate8 => Some(7usize),
            Action::Candidate9 => Some(8usize),
            _ => None,
        },
{
}

} // verus!
