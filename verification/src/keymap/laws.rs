//! What holds of key maps as a whole.

use super::key_spec;
use super::key_spec::{Scope, Slot, Trigger};
use super::bindings;
use super::bindings::KeyMap;
use super::vocabulary;
use super::vocabulary::{Action, Preset, State, GLOBAL_SECTION, UNBOUND};
use super::KeyMapError;
use crate::config;
use crate::input_repair::kana;
use crate::keys;
use crate::keys::{KeyCode, KeyInput, Modifiers};
use vstd::prelude::*;

verus! {

/// Every action is found by its name, and no action by the name that takes a
/// binding away.
pub proof fn action_names_round_trip(action: Action)
    ensures
        Action::named(action.name_of()) == Some(action),
        Action::named(UNBOUND@) is None,
{
    let found = choose|a: Action| #[trigger] a.name_of() == action.name_of();
    vocabulary::lemma_action_names_differ(found, action);
    assert forall|a: Action| #[trigger] a.name_of() != UNBOUND@ by {
        vocabulary::lemma_unbound_is_no_action(a);
    }
}

/// Two actions never have the same name.
pub proof fn action_names_are_unique(a: Action, b: Action)
    ensures
        a.name_of() == b.name_of() ==> a == b,
{
    if a.name_of() == b.name_of() {
        vocabulary::lemma_action_names_differ(a, b);
    }
}

/// Every preset is found by its name.
pub proof fn preset_names_round_trip(preset: Preset)
    ensures
        Preset::named(preset.name_of()) == Some(preset),
{
    reveal_strlit("ms-ime");
    reveal_strlit("atok");
    assert("ms-ime"@.len() != "atok"@.len());
}

/// Whether two attempts to compile a key map came out the same: the same bindings, or
/// the same fault at the same place.
pub open spec fn same_outcome(
    a: Result<KeyMap, KeyMapError>,
    b: Result<KeyMap, KeyMapError>,
) -> bool {
    match (a, b) {
        (Ok(x), Ok(y)) => x@ == y@,
        (Err(e), Err(f)) => e.view() == f.view(),
        _ => false,
    }
}

/// What a source compiles to is decided by the source: whenever two attempts have the
/// same source, they come out the same.
pub proof fn sources_decide_what_they_compile_to(
    source: Seq<char>,
    a: Result<KeyMap, KeyMapError>,
    b: Result<KeyMap, KeyMapError>,
)
    requires
        bindings::source_compiles_to(source, a),
        bindings::source_compiles_to(source, b),
    ensures
        same_outcome(a, b),
{
}

/// A shipped preset is its source, compiled: it comes out as the source does when it is
/// read as any other key map.
pub proof fn presets_are_their_sources(
    preset: Preset,
    shipped: Result<KeyMap, KeyMapError>,
    read: Result<KeyMap, KeyMapError>,
)
    requires
        bindings::source_compiles_to(preset.source_of(), shipped),
        bindings::source_compiles_to(preset.source_of(), read),
    ensures
        same_outcome(shipped, read),
{
    sources_decide_what_they_compile_to(preset.source_of(), shipped, read);
}

/// A key map that compiles binds something, a shipped one as any other.
pub proof fn compiled_maps_are_not_empty(source: Seq<char>, map: KeyMap)
    requires
        bindings::source_compiles_to(source, Ok::<KeyMap, KeyMapError>(map)),
    ensures
        exists|slot: Slot| #[trigger] map@.contains_key(slot),
        map.entries().len() > 0,
{
    assert(map@.dom() != Set::<Slot>::empty());
    if forall|slot: Slot| !#[trigger] map@.contains_key(slot) {
        assert(map@.dom() =~= Set::<Slot>::empty());
    }
    let slot = choose|slot: Slot| #[trigger] map@.contains_key(slot);
    let i = choose|i: int| #[trigger] bindings::binds(map.entries(), slot, i);
    assert(bindings::binds(map.entries(), slot, i));
}

/// Every state is found by its section, and the section for every state is none of
/// theirs.
pub proof fn sections_round_trip(state: State)
    ensures
        bindings::scope_named(state.section_of()) == Some(Scope::In(state)),
        bindings::scope_named(GLOBAL_SECTION@) == Some(Scope::Global),
{
    vocabulary::lemma_sections_differ(state, state);
}

/// Every key with a name is found by it.
pub proof fn key_names_round_trip(code: KeyCode)
    requires
        code.name_of() is Some,
    ensures
        KeyCode::named(code.name_of()->0) == Some(code),
{
    let name = code.name_of()->0;
    assert(code.name_of() == Some(name));
    let found = choose|k: KeyCode| #[trigger] k.name_of() == Some(name);
    keys::lemma_names_differ(found, code);
}

/// A binding for the state goes before one for every state.
pub proof fn state_goes_before_global(
    bound: Map<Slot, Action>,
    state: State,
    key: KeyInput,
    trigger: Trigger,
)
    requires
        key_spec::triggered(key) == Some(trigger),
        bound.contains_key(
            Slot { scope: Scope::In(state), trigger, modifiers: key.modifiers.0 & 7 },
        ),
    ensures
        bindings::action_for(bound, state, key) == Some(
            bound[Slot { scope: Scope::In(state), trigger, modifiers: key.modifiers.0 & 7 }],
        ),
{
}

/// The locks of the keyboard do not change what a key does.
pub proof fn locks_do_not_count(bound: Map<Slot, Action>, state: State, key: KeyInput, locks: u8)
    requires
        locks & 7 == 0,
    ensures
        bindings::action_for(
            bound,
            state,
            KeyInput { modifiers: Modifiers(key.modifiers.0 | locks), ..key },
        ) == bindings::action_for(bound, state, key),
{
    let bits = key.modifiers.0;
    assert((bits | locks) & 7 == bits & 7) by (bit_vector)
        requires
            locks & 7 == 0,
    ;
}

/// A character key does the same whatever its case.
pub proof fn character_keys_fold_case(
    bound: Map<Slot, Action>,
    state: State,
    key: KeyInput,
    c: char,
)
    requires
        key.code is Char,
        key.ch == Some(c),
    ensures
        bindings::action_for(bound, state, KeyInput { ch: Some(kana::lower(c)), ..key })
            == bindings::action_for(bound, state, key),
{
}

/// A key that is not known, and a character key without a character, do nothing.
pub proof fn unbindable_keys_do_nothing(bound: Map<Slot, Action>, state: State, key: KeyInput)
    requires
        key.code is Unknown || (key.code is Char && key.ch is None),
    ensures
        bindings::action_for(bound, state, key) is None,
{
}

// ---------------------------------------------------------------------------
// What is written reads back.

/// Whether a slot is one that can be written: a key with a name, or a character in
/// lower case, and no locks.
pub open spec fn writable(slot: Slot) -> bool {
    &&& slot.modifiers <= 7
    &&& match slot.trigger {
        Trigger::Char(c) => c == kana::lower(c),
        Trigger::Code(n) => KeyCode::numbered(n) matches Some(code) && code.name_of() is Some,
    }
}

/// The name of a key holds no `+` where a modifier would, and has more than one
/// letter.
proof fn lemma_name_is_no_modifier(code: KeyCode)
    requires
        code.name_of() is Some,
    ensures
        ({
            let name = code.name_of()->0;
            &&& name.len() > 1
            &&& name.len() > 3 ==> name[3] != '+'
            &&& name.len() > 4 ==> name[4] != '+'
            &&& name.len() > 5 ==> name[5] != '+'
        }),
{
    match code {
        KeyCode::Unknown => {},
        KeyCode::Char => {},
        KeyCode::Space => {
            reveal_strlit("space");
        },
        KeyCode::Enter => {
            reveal_strlit("enter");
        },
        KeyCode::Escape => {
            reveal_strlit("escape");
        },
        KeyCode::Backspace => {
            reveal_strlit("backspace");
        },
        KeyCode::Delete => {
            reveal_strlit("delete");
        },
        KeyCode::Tab => {
            reveal_strlit("tab");
        },
        KeyCode::Left => {
            reveal_strlit("left");
        },
        KeyCode::Right => {
            reveal_strlit("right");
        },
        KeyCode::Up => {
            reveal_strlit("up");
        },
        KeyCode::Down => {
            reveal_strlit("down");
        },
        KeyCode::Home => {
            reveal_strlit("home");
        },
        KeyCode::End => {
            reveal_strlit("end");
        },
        KeyCode::PageUp => {
            reveal_strlit("page_up");
        },
        KeyCode::PageDown => {
            reveal_strlit("page_down");
        },
        KeyCode::Henkan => {
            reveal_strlit("henkan");
        },
        KeyCode::Muhenkan => {
            reveal_strlit("muhenkan");
        },
        KeyCode::KanaMode => {
            reveal_strlit("kana_mode");
        },
        KeyCode::HankakuZenkaku => {
            reveal_strlit("hankaku_zenkaku");
        },
        KeyCode::CapsLock => {
            reveal_strlit("caps_lock");
        },
        KeyCode::F1 => {
            reveal_strlit("f1");
        },
        KeyCode::F2 => {
            reveal_strlit("f2");
        },
        KeyCode::F3 => {
            reveal_strlit("f3");
        },
        KeyCode::F4 => {
            reveal_strlit("f4");
        },
        KeyCode::F5 => {
            reveal_strlit("f5");
        },
        KeyCode::F6 => {
            reveal_strlit("f6");
        },
        KeyCode::F7 => {
            reveal_strlit("f7");
        },
        KeyCode::F8 => {
            reveal_strlit("f8");
        },
        KeyCode::F9 => {
            reveal_strlit("f9");
        },
        KeyCode::F10 => {
            reveal_strlit("f10");
        },
        KeyCode::F11 => {
            reveal_strlit("f11");
        },
        KeyCode::F12 => {
            reveal_strlit("f12");
        },
    }
}

/// No key has the name of a single character.
proof fn lemma_single_character_is_no_name(c: char)
    ensures
        KeyCode::named(seq![c]) is None,
{
    assert forall|k: KeyCode| #[trigger] k.name_of() != Some(seq![c]) by {
        if k.name_of() == Some(seq![c]) {
            lemma_name_is_no_modifier(k);
        }
    }
}

/// A modifier in front of a key is read.
proof fn lemma_modifier_leads(
    s: Seq<char>,
    a: Seq<char>,
    word: Seq<char>,
    bit: u8,
    rest: Seq<char>,
    m: u8,
)
    requires
        (bit == Modifiers::CTRL && word == "ctrl+"@) || (bit == Modifiers::SHIFT && word
            == "shift+"@) || (bit == Modifiers::ALT && word == "alt+"@),
        rest.len() > 0,
        s == a + word + rest,
    ensures
        key_spec::key_from(s, a.len() as int, m) == key_spec::key_from(
            s,
            (a + word).len() as int,
            m | bit,
        ),
{
    reveal_strlit("shift+");
    reveal_strlit("ctrl+");
    reveal_strlit("alt+");
    let i = a.len() as int;
    assert(s.subrange(i, i + word.len()) =~= word);
    assert(s[i] == word[0]);
    if key_spec::leads(s, i, "shift+"@) {
        assert(s.subrange(i, i + 6)[0] == s[i]);
    }
    if key_spec::leads(s, i, "ctrl+"@) {
        assert(s.subrange(i, i + 5)[0] == s[i]);
    }
    assert(key_spec::leading_modifier(s, i) == Some((bit, word.len() as int)));
}

/// What is written of a slot reads back as its modifiers and its key.
pub proof fn written_keys_read_back(slot: Slot)
    requires
        writable(slot),
    ensures
        key_spec::key_spec(key_spec::slot_text(slot)) == Ok::<(u8, Trigger), super::KeyMapErrorKind>(
            (slot.modifiers, slot.trigger),
        ),
{
    let bits = slot.modifiers;
    let name = key_spec::trigger_text(slot.trigger);
    let none = Seq::<char>::empty();
    let ctrl = if bits & Modifiers::CTRL != 0 {
        "ctrl+"@
    } else {
        none
    };
    let shift = if bits & Modifiers::SHIFT != 0 {
        "shift+"@
    } else {
        none
    };
    let alt = if bits & Modifiers::ALT != 0 {
        "alt+"@
    } else {
        none
    };
    let s = key_spec::slot_text(slot);
    match slot.trigger {
        Trigger::Char(c) => {
            lemma_single_character_is_no_name(c);
        },
        Trigger::Code(n) => {
            let code = KeyCode::numbered(n)->0;
            lemma_name_is_no_modifier(code);
            key_names_round_trip(code);
            assert(code.number_of() == n) by {
                keys::lemma_listed(code);
                lemma_numbers(n);
            }
        },
    }
    let m1: u8 = if bits & Modifiers::CTRL != 0 {
        0u8 | Modifiers::CTRL
    } else {
        0
    };
    let m2: u8 = if bits & Modifiers::SHIFT != 0 {
        m1 | Modifiers::SHIFT
    } else {
        m1
    };
    let m3: u8 = if bits & Modifiers::ALT != 0 {
        m2 | Modifiers::ALT
    } else {
        m2
    };
    lemma_bits(bits);
    assert(m3 == bits);
    if bits & Modifiers::CTRL != 0 {
        assert(none + ctrl + (shift + alt + name) =~= s);
        assert((none + ctrl) =~= ctrl);
        lemma_modifier_leads(s, none, ctrl, Modifiers::CTRL, shift + alt + name, 0);
    }
    assert(key_spec::key_from(s, 0, 0) == key_spec::key_from(s, ctrl.len() as int, m1));
    if bits & Modifiers::SHIFT != 0 {
        assert(ctrl + shift + (alt + name) =~= s);
        lemma_modifier_leads(s, ctrl, shift, Modifiers::SHIFT, alt + name, m1);
    }
    assert(ctrl + none =~= ctrl);
    assert(key_spec::key_from(s, ctrl.len() as int, m1) == key_spec::key_from(
        s,
        (ctrl + shift).len() as int,
        m2,
    ));
    if bits & Modifiers::ALT != 0 {
        lemma_modifier_leads(s, ctrl + shift, alt, Modifiers::ALT, name, m2);
    }
    let i = (ctrl + shift + alt).len() as int;
    assert(key_spec::key_from(s, (ctrl + shift).len() as int, m2) == key_spec::key_from(s, i, m3));
    assert(s.skip(i) =~= name);
    assert(key_spec::leading_modifier(s, i) is None) by {
        reveal_strlit("shift+");
        reveal_strlit("ctrl+");
        reveal_strlit("alt+");
        if key_spec::leads(s, i, "shift+"@) {
            assert(s.subrange(i, i + 6)[5] == s[i + 5] == name[5]);
        }
        if key_spec::leads(s, i, "ctrl+"@) {
            assert(s.subrange(i, i + 5)[4] == s[i + 4] == name[4]);
        }
        if key_spec::leads(s, i, "alt+"@) {
            assert(s.subrange(i, i + 4)[3] == s[i + 3] == name[3]);
        }
    }
}

/// A number below eight is made of its three bits.
proof fn lemma_bits(bits: u8)
    requires
        bits <= 7,
    ensures
        ({
            let m1 = if bits & 2 != 0 {
                0u8 | 2
            } else {
                0
            };
            let m2 = if bits & 1 != 0 {
                m1 | 1
            } else {
                m1
            };
            let m3 = if bits & 4 != 0 {
                m2 | 4
            } else {
                m2
            };
            m3 == bits
        }),
{
    assert({
        let m1 = if bits & 2 != 0 {
            0u8 | 2
        } else {
            0
        };
        let m2 = if bits & 1 != 0 {
            m1 | 1
        } else {
            m1
        };
        let m3 = if bits & 4 != 0 {
            m2 | 4
        } else {
            m2
        };
        m3 == bits
    }) by (bit_vector)
        requires
            bits <= 7,
    ;
}

/// The key at a place has the number of the place.
proof fn lemma_numbers(n: u16)
    requires
        KeyCode::numbered(n) is Some,
    ensures
        KeyCode::numbered(n)->0.number_of() == n,
{
}

/// What reads as a key can be written.
proof fn lemma_read_keys_are_writable(s: Seq<char>, i: int, bits: u8, scope: Scope)
    requires
        0 <= i <= s.len(),
        bits <= 7,
    ensures
        key_spec::key_from(s, i, bits) matches Ok((m, trigger)) ==> m <= 7 && writable(
            Slot { scope, trigger, modifiers: m },
        ),
    decreases s.len() - i,
{
    match key_spec::leading_modifier(s, i) {
        Some((bit, taken)) => {
            assert(bits | 1 <= 7 && bits | 2 <= 7 && bits | 4 <= 7) by (bit_vector)
                requires
                    bits <= 7,
            ;
            if 0 < taken <= s.len() - i {
                lemma_read_keys_are_writable(s, i + taken, bits | bit, scope);
            }
        },
        None => {
            let name = s.skip(i);
            match KeyCode::named(name) {
                Some(code) => {
                    assert(code.name_of() == Some(name));
                    keys::lemma_listed(code);
                },
                None => {},
            }
        },
    }
}

/// Whether every binding of a map can be written.
pub open spec fn all_writable(bound: Map<Slot, Action>) -> bool {
    forall|slot: Slot| #[trigger] bound.contains_key(slot) ==> writable(slot)
}

proof fn lemma_entries_writable(
    bound: Map<Slot, Action>,
    scope: Scope,
    entries: Seq<config::EntryView>,
    n: int,
    overriding: bool,
)
    requires
        all_writable(bound),
        n <= entries.len(),
    ensures
        bindings::with_entries(bound, scope, entries, n, overriding) matches Ok(m) ==> all_writable(
            m.map,
        ),
    decreases n,
{
    if n > 0 {
        lemma_entries_writable(bound, scope, entries, n - 1, overriding);
        lemma_read_keys_are_writable(entries[n - 1].key, 0, 0, scope);
        if let Ok((bits, trigger)) = key_spec::key_spec(entries[n - 1].key) {
            assert(bits & 7 == bits) by (bit_vector)
                requires
                    bits <= 7,
            ;
        }
    }
}

proof fn lemma_sections_writable(
    bound: Map<Slot, Action>,
    document: Seq<config::SectionView>,
    n: int,
    overriding: bool,
)
    requires
        all_writable(bound),
        n <= document.len(),
    ensures
        bindings::with_sections(bound, document, n, overriding) matches Ok(m) ==> all_writable(m),
    decreases n,
{
    if n > 0 {
        lemma_sections_writable(bound, document, n - 1, overriding);
        if let Ok(before) = bindings::with_sections(bound, document, n - 1, overriding) {
            let name = document[n - 1].name;
            if let Some(scope) = bindings::scope_named(name) {
                if let Some(entries) = config::section_entries(document, name) {
                    lemma_entries_writable(
                        before,
                        scope,
                        entries,
                        entries.len() as int,
                        overriding,
                    );
                }
            }
        }
    }
}

/// Every binding that a document compiles to is written so that it reads back as
/// the same binding, and overrides keep it so.
pub proof fn compiled_bindings_read_back(document: Seq<config::SectionView>)
    ensures
        bindings::compiled(document) matches Ok(bound) ==> all_writable(bound),
        forall|bound: Map<Slot, Action>|
            all_writable(bound) ==> (#[trigger] bindings::with_sections(
                bound,
                document,
                document.len() as int,
                true,
            ) matches Ok(after) ==> all_writable(after)),
{
    lemma_sections_writable(Map::empty(), document, document.len() as int, false);
    assert forall|bound: Map<Slot, Action>| all_writable(bound) implies (
    #[trigger] bindings::with_sections(bound, document, document.len() as int, true) matches Ok(after)
        ==> all_writable(after)) by {
        lemma_sections_writable(bound, document, document.len() as int, true);
    }
}

// ---------------------------------------------------------------------------
// What a document does not name stays.

/// Whether an entry of a section binds a slot.
pub open spec fn names(scope: Scope, entry: config::EntryView, slot: Slot) -> bool {
    key_spec::key_spec(entry.key) matches Ok((bits, trigger)) && slot == (Slot {
        scope,
        trigger,
        modifiers: bits & 7,
    })
}

/// Whether the section `name` of a document binds a slot.
pub open spec fn section_names(
    document: Seq<config::SectionView>,
    name: Seq<char>,
    slot: Slot,
) -> bool {
    match (bindings::scope_named(name), config::section_entries(document, name)) {
        (Some(scope), Some(entries)) => exists|k: int|
            0 <= k < entries.len() && #[trigger] names(scope, entries[k], slot),
        _ => false,
    }
}

/// Whether two maps bind a slot in the same way.
pub open spec fn agree(a: Map<Slot, Action>, b: Map<Slot, Action>, slot: Slot) -> bool {
    a.contains_key(slot) == b.contains_key(slot) && (a.contains_key(slot) ==> a[slot] == b[slot])
}

proof fn lemma_entries_agree(
    bound: Map<Slot, Action>,
    scope: Scope,
    entries: Seq<config::EntryView>,
    n: int,
    overriding: bool,
    slot: Slot,
)
    requires
        n <= entries.len(),
        forall|k: int| 0 <= k < n ==> !#[trigger] names(scope, entries[k], slot),
    ensures
        bindings::with_entries(bound, scope, entries, n, overriding) matches Ok(m) ==> agree(
            m.map,
            bound,
            slot,
        ),
    decreases n,
{
    if n > 0 {
        lemma_entries_agree(bound, scope, entries, n - 1, overriding, slot);
        assert(!names(scope, entries[n - 1], slot));
    }
}

proof fn lemma_sections_agree(
    bound: Map<Slot, Action>,
    document: Seq<config::SectionView>,
    n: int,
    slot: Slot,
)
    requires
        n <= document.len(),
        forall|k: int|
            0 <= k < n ==> !section_names(document, (#[trigger] document[k]).name, slot),
    ensures
        bindings::with_sections(bound, document, n, true) matches Ok(m) ==> agree(m, bound, slot),
    decreases n,
{
    if n > 0 {
        lemma_sections_agree(bound, document, n - 1, slot);
        let name = document[n - 1].name;
        if let Ok(before) = bindings::with_sections(bound, document, n - 1, true) {
            if let Some(scope) = bindings::scope_named(name) {
                if let Some(entries) = config::section_entries(document, name) {
                    lemma_entries_agree(
                        before,
                        scope,
                        entries,
                        entries.len() as int,
                        true,
                        slot,
                    );
                }
            }
        }
    }
}

/// Overrides change only the bindings that they name.
pub proof fn overrides_leave_the_rest_alone(
    bound: Map<Slot, Action>,
    document: Seq<config::SectionView>,
    slot: Slot,
)
    requires
        forall|k: int|
            0 <= k < document.len() ==> !section_names(
                document,
                (#[trigger] document[k]).name,
                slot,
            ),
    ensures
        bindings::with_sections(bound, document, document.len() as int, true) matches Ok(after)
            ==> agree(after, bound, slot),
{
    lemma_sections_agree(bound, document, document.len() as int, slot);
}

} // verus!
