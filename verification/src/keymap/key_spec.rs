//! How keys are written in a key map: `ctrl+shift+left`, `ctrl+u`.

use super::vocabulary::State;
use super::KeyMapErrorKind;
use crate::input_repair::kana;
use crate::input_repair::kana::to_lower;
use crate::keys::{KeyCode, KeyInput, Modifiers};
use crate::strings;
use vstd::prelude::*;

verus! {

/// The key of a binding.
#[derive(Debug, Clone, Copy, PartialEq, Eq, PartialOrd, Ord, Structural)]
pub enum Trigger {
    /// A named key, by its number.
    Code(u16),
    /// The key that types a character, in lower case.
    Char(char),
}

/// Where a binding holds.
#[derive(Debug, Clone, Copy, PartialEq, Eq, PartialOrd, Ord, Structural)]
pub enum Scope {
    /// In every state.
    Global,
    In(State),
}

/// What a binding is found by.
#[derive(Debug, Clone, Copy, PartialEq, Eq, PartialOrd, Ord, Structural)]
pub struct Slot {
    pub scope: Scope,
    pub trigger: Trigger,
    /// The modifiers, without locks.
    pub modifiers: u8,
}

impl Slot {
    /// The place of the scope among scopes.
    pub open spec fn scope_rank(self) -> int {
        match self.scope {
            Scope::Global => 0,
            Scope::In(State::Idle) => 1,
            Scope::In(State::Composing) => 2,
            Scope::In(State::Converting) => 3,
            Scope::In(State::Predicting) => 4,
        }
    }

    /// The place of the key among keys: named keys before characters.
    pub open spec fn trigger_rank(self) -> int {
        match self.trigger {
            Trigger::Code(code) => code as int,
            Trigger::Char(c) => 0x1_0000 + c as int,
        }
    }

    /// The place of the slot among slots: by scope, by key, and by modifiers.
    pub open spec fn rank_of(self) -> int {
        (self.scope_rank() * 0x20_0000 + self.trigger_rank()) * 0x100 + self.modifiers
    }

    /// The place of the slot among slots.
    pub fn rank(&self) -> (r: u64)
        ensures
            r == self.rank_of(),
    {
        let scope: u64 = match self.scope {
            Scope::Global => 0,
            Scope::In(State::Idle) => 1,
            Scope::In(State::Composing) => 2,
            Scope::In(State::Converting) => 3,
            Scope::In(State::Predicting) => 4,
        };
        let trigger: u64 = match self.trigger {
            Trigger::Code(code) => code as u64,
            Trigger::Char(c) => 0x1_0000 + c as u64,
        };
        (scope * 0x20_0000 + trigger) * 0x100 + self.modifiers as u64
    }
}

/// No two slots have the same place.
pub proof fn lemma_ranks_differ(a: Slot, b: Slot)
    requires
        a.rank_of() == b.rank_of(),
    ensures
        a == b,
{
    assert(a.trigger_rank() < 0x20_0000 && b.trigger_rank() < 0x20_0000);
    assert(a.modifiers == b.modifiers);
    assert(a.trigger_rank() == b.trigger_rank());
    assert(a.scope_rank() == b.scope_rank());
    assert(a.scope == b.scope);
    assert(a.trigger == b.trigger);
}

/// The key that an event is looked up by. A key that is not known, and a character
/// key without a character, cannot be bound.
pub open spec fn triggered(key: KeyInput) -> Option<Trigger> {
    match key.code {
        KeyCode::Unknown => None,
        KeyCode::Char => match key.ch {
            Some(c) => Some(Trigger::Char(kana::lower(c))),
            None => None,
        },
        code => Some(Trigger::Code(code.number_of())),
    }
}

/// The key that an event is looked up by.
pub fn trigger_of(key: &KeyInput) -> (r: Option<Trigger>)
    ensures
        r == triggered(*key),
{
    match key.code {
        KeyCode::Unknown => None,
        KeyCode::Char => match key.ch {
            Some(c) => Some(Trigger::Char(to_lower(c))),
            None => None,
        },
        code => Some(Trigger::Code(code.number())),
    }
}

/// Whether a text goes on with `prefix` at `i`, and with something behind it.
pub open spec fn leads(s: Seq<char>, i: int, prefix: Seq<char>) -> bool {
    i + prefix.len() < s.len() && s.subrange(i, i + prefix.len()) == prefix
}

/// The modifier that a key is written with from `i` on, and the length it takes. A
/// `+` at the end is the key itself.
pub open spec fn leading_modifier(s: Seq<char>, i: int) -> Option<(u8, int)> {
    if leads(s, i, "shift+"@) {
        Some((Modifiers::SHIFT, 6))
    } else if leads(s, i, "ctrl+"@) {
        Some((Modifiers::CTRL, 5))
    } else if leads(s, i, "alt+"@) {
        Some((Modifiers::ALT, 4))
    } else {
        None
    }
}

/// The key of a name: a named key, or the key of a single character.
pub open spec fn trigger_named(name: Seq<char>) -> Result<Trigger, KeyMapErrorKind> {
    match KeyCode::named(name) {
        Some(code) => Ok(Trigger::Code(code.number_of())),
        None => if name.len() == 1 {
            Ok(Trigger::Char(kana::lower(name[0])))
        } else if name.contains('+') {
            Err(KeyMapErrorKind::UnknownModifier)
        } else {
            Err(KeyMapErrorKind::UnknownKey)
        },
    }
}

/// The modifiers and the key that are written from `i` on, with `modifiers` read
/// already.
pub open spec fn key_from(s: Seq<char>, i: int, modifiers: u8) -> Result<
    (u8, Trigger),
    KeyMapErrorKind,
>
    decreases s.len() - i,
{
    match leading_modifier(s, i) {
        Some((bit, taken)) => if 0 < taken <= s.len() - i {
            key_from(s, i + taken, modifiers | bit)
        } else {
            Err(KeyMapErrorKind::UnknownKey)
        },
        None => match trigger_named(s.skip(i)) {
            Ok(trigger) => Ok((modifiers, trigger)),
            Err(kind) => Err(kind),
        },
    }
}

/// The modifiers and the key that a text writes.
pub open spec fn key_spec(s: Seq<char>) -> Result<(u8, Trigger), KeyMapErrorKind> {
    key_from(s, 0, 0)
}

/// Whether a text goes on with `prefix` at `i`, and with something behind it.
fn leads_at(s: &[char], i: usize, prefix: &str) -> (r: bool)
    requires
        i <= s@.len(),
    ensures
        r == leads(s@, i as int, prefix@),
{
    let p: Vec<char> = strings::chars_of(prefix);
    assert(s.len() == s@.len());
    if p.len() >= s.len() - i {
        return false;
    }
    let mut k: usize = 0;
    while k < p.len()
        invariant
            k <= p@.len(),
            p@ == prefix@,
            i + p@.len() < s@.len() <= usize::MAX,
            forall|j: int| 0 <= j < k ==> s@[i + j] == #[trigger] p@[j],
        decreases p@.len() - k,
    {
        if s[i + k] != p[k] {
            assert(s@.subrange(i as int, i + p@.len())[k as int] == s@[i + k]);
            return false;
        }
        k = k + 1;
    }
    assert(s@.subrange(i as int, i + p@.len()) =~= p@);
    true
}

/// Reads the modifiers and the key that a text writes, such as `ctrl+shift+left`.
pub fn parse_key_spec(spec: &str) -> (r: Result<(Modifiers, Trigger), KeyMapErrorKind>)
    ensures
        match key_spec(spec@) {
            Ok((bits, trigger)) => r == Ok::<(Modifiers, Trigger), KeyMapErrorKind>(
                (Modifiers(bits), trigger),
            ),
            Err(kind) => r == Err::<(Modifiers, Trigger), KeyMapErrorKind>(kind),
        },
{
    proof {
        reveal_strlit("shift+");
        reveal_strlit("ctrl+");
        reveal_strlit("alt+");
    }
    let s: Vec<char> = strings::chars_of(spec);
    let mut i: usize = 0;
    let mut bits: u8 = 0;
    assert(s.len() == s@.len());
    loop
        invariant
            i <= s@.len() <= usize::MAX,
            s@ == spec@,
            key_spec(spec@) == key_from(s@, i as int, bits),
            "shift+"@.len() == 6,
            "ctrl+"@.len() == 5,
            "alt+"@.len() == 4,
        ensures
            i <= s@.len(),
            s@ == spec@,
            leading_modifier(s@, i as int) is None,
            key_spec(spec@) == key_from(s@, i as int, bits),
        decreases s@.len() - i,
    {
        if leads_at(&s, i, "shift+") {
            bits = bits | Modifiers::SHIFT;
            i = i + 6;
        } else if leads_at(&s, i, "ctrl+") {
            bits = bits | Modifiers::CTRL;
            i = i + 5;
        } else if leads_at(&s, i, "alt+") {
            bits = bits | Modifiers::ALT;
            i = i + 4;
        } else {
            break;
        }
    }
    let rest: &[char] = vstd::slice::slice_subrange(s.as_slice(), i, s.len());
    assert(rest@ =~= s@.skip(i as int));
    let name: String = strings::string_of(rest);
    match parse_trigger(name.as_str()) {
        Ok(trigger) => Ok((Modifiers(bits), trigger)),
        Err(kind) => Err(kind),
    }
}

/// The key of a name.
fn parse_trigger(name: &str) -> (r: Result<Trigger, KeyMapErrorKind>)
    ensures
        r == trigger_named(name@),
{
    if let Some(code) = KeyCode::from_name(name) {
        return Ok(Trigger::Code(code.number()));
    }
    let chars: Vec<char> = strings::chars_of(name);
    if chars.len() == 1 {
        return Ok(Trigger::Char(to_lower(chars[0])));
    }
    let mut i: usize = 0;
    while i < chars.len()
        invariant
            i <= chars@.len(),
            chars@ == name@,
            chars@.len() != 1,
            KeyCode::named(name@) is None,
            forall|k: int| 0 <= k < i ==> #[trigger] name@[k] != '+',
        decreases chars@.len() - i,
    {
        if chars[i] == '+' {
            assert(name@[i as int] == '+');
            return Err(KeyMapErrorKind::UnknownModifier);
        }
        i = i + 1;
    }
    Err(KeyMapErrorKind::UnknownKey)
}

/// How modifiers are written.
pub open spec fn modifiers_text(bits: u8) -> Seq<char> {
    let ctrl = if bits & Modifiers::CTRL != 0 {
        "ctrl+"@
    } else {
        Seq::<char>::empty()
    };
    let shift = if bits & Modifiers::SHIFT != 0 {
        "shift+"@
    } else {
        Seq::<char>::empty()
    };
    let alt = if bits & Modifiers::ALT != 0 {
        "alt+"@
    } else {
        Seq::<char>::empty()
    };
    ctrl + shift + alt
}

/// How a key is written.
pub open spec fn trigger_text(trigger: Trigger) -> Seq<char> {
    match trigger {
        Trigger::Char(c) => seq![c],
        Trigger::Code(n) => match KeyCode::numbered(n) {
            Some(code) => match code.name_of() {
                Some(name) => name,
                None => "unknown"@,
            },
            None => "unknown"@,
        },
    }
}

/// How the key of a slot is written.
pub open spec fn slot_text(slot: Slot) -> Seq<char> {
    modifiers_text(slot.modifiers) + trigger_text(slot.trigger)
}

/// Writes the key of a slot, as [`parse_key_spec`] reads it.
pub fn format_slot(slot: &Slot) -> (text: String)
    ensures
        text@ == slot_text(*slot),
{
    let mut text: String = String::new();
    let modifiers = Modifiers(slot.modifiers);
    if modifiers.ctrl() {
        text.append("ctrl+");
    }
    if modifiers.shift() {
        text.append("shift+");
    }
    if modifiers.alt() {
        text.append("alt+");
    }
    assert(text@ =~= modifiers_text(slot.modifiers));
    match slot.trigger {
        Trigger::Char(c) => {
            strings::push_char(&mut text, c);
        },
        Trigger::Code(n) => {
            let name: &str = match KeyCode::from_number(n) {
                Some(code) => match code.name() {
                    Some(name) => name,
                    None => "unknown",
                },
                None => "unknown",
            };
            text.append(name);
        },
    }
    assert(text@ =~= slot_text(*slot));
    text
}

} // verus!
