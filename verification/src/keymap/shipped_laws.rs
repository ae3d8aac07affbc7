//! The shipped key maps compile.
//!
//! A source is followed line by line: each line binds a slot behind the slot of the line
//! before it, so that no key is written twice in a section.

use super::bindings;
use super::bindings::KeyMap;
use super::key_spec;
use super::key_spec::{Scope, Slot, Trigger};
use super::laws;
use super::presets::{ATOK_PRESET, MS_IME_PRESET};
use super::vocabulary;
use super::vocabulary::{Action, Preset, State, GLOBAL_SECTION};
use super::KeyMapError;
use crate::config;
use crate::config::{EntryView, LineView, ParseErrorKind, SectionView};
use crate::config_text;
use crate::input_repair::kana;
use crate::keys;
use crate::keys::{KeyCode, Modifiers};
use vstd::prelude::*;

verus! {

/// A section of a key map: where its bindings hold, and what they are.
pub struct Part {
    pub scope: Scope,
    pub bindings: Seq<(Slot, Action)>,
}

/// The name of the section for a scope.
pub open spec fn scope_name(scope: Scope) -> Seq<char> {
    match scope {
        Scope::Global => GLOBAL_SECTION@,
        Scope::In(state) => state.section_of(),
    }
}

/// The place of a scope among scopes.
pub open spec fn scope_rank(scope: Scope) -> int {
    Slot { scope, trigger: Trigger::Code(0), modifiers: 0 }.scope_rank()
}

/// The entry of a binding.
pub open spec fn entry_of(binding: (Slot, Action)) -> EntryView {
    config_text::text_entry(key_spec::slot_text(binding.0), binding.1.name_of())
}

/// The section of a part.
pub open spec fn section_of(part: Part) -> SectionView {
    SectionView {
        name: scope_name(part.scope),
        entries: part.bindings.map_values(|b: (Slot, Action)| entry_of(b)),
    }
}

/// The document of several parts.
pub open spec fn document_of(parts: Seq<Part>) -> Seq<SectionView> {
    parts.map_values(|p: Part| section_of(p))
}

/// Whether every binding of a part is for its scope and can be written, and the slots
/// ascend.
pub open spec fn part_sound(part: Part) -> bool {
    &&& forall|k: int|
        0 <= k < part.bindings.len() ==> (#[trigger] part.bindings[k]).0.scope == part.scope
            && laws::writable(part.bindings[k].0)
    &&& bindings::ascending(part.bindings)
}

/// Whether every part is sound, and the scopes ascend.
pub open spec fn sound(parts: Seq<Part>) -> bool {
    &&& forall|i: int| 0 <= i < parts.len() ==> part_sound(#[trigger] parts[i])
    &&& forall|i: int, j: int|
        0 <= i < j < parts.len() ==> scope_rank((#[trigger] parts[i]).scope) < scope_rank(
            (#[trigger] parts[j]).scope,
        )
}

/// How many bindings there are.
pub open spec fn total(parts: Seq<Part>) -> nat
    decreases parts.len(),
{
    if parts.len() == 0 {
        0
    } else {
        total(parts.drop_last()) + parts.last().bindings.len()
    }
}

// ---------------------------------------------------------------------------
// What sound parts compile to.

/// No scope has the name of another.
proof fn lemma_scope_names_differ(a: Scope, b: Scope)
    requires
        a != b,
    ensures
        scope_name(a) != scope_name(b),
{
    match (a, b) {
        (Scope::In(x), Scope::In(y)) => {
            vocabulary::lemma_sections_differ(x, y);
        },
        (Scope::In(x), Scope::Global) => {
            vocabulary::lemma_sections_differ(x, x);
        },
        (Scope::Global, Scope::In(y)) => {
            vocabulary::lemma_sections_differ(y, y);
        },
        _ => {},
    }
}

/// Two slots of one scope that can be written are written differently.
proof fn lemma_keys_differ(a: Slot, b: Slot)
    requires
        laws::writable(a),
        laws::writable(b),
        a.scope == b.scope,
        a != b,
    ensures
        key_spec::slot_text(a) != key_spec::slot_text(b),
{
    laws::written_keys_read_back(a);
    laws::written_keys_read_back(b);
}

/// Whether a key map binds nothing in a scope.
spec fn free(bound: Map<Slot, Action>, scope: Scope) -> bool {
    forall|slot: Slot| #[trigger] bound.contains_key(slot) ==> slot.scope != scope
}

/// The bindings of a part are all made, and no others.
proof fn lemma_part_compiles(bound: Map<Slot, Action>, part: Part, n: int)
    requires
        part_sound(part),
        0 <= n <= part.bindings.len(),
        bound.dom().finite(),
        free(bound, part.scope),
    ensures
        bindings::with_entries(bound, part.scope, section_of(part).entries, n, false) matches Ok(m)
            && m.seen.len() == n && (forall|k: int|
            0 <= k < n ==> #[trigger] m.seen[k] == part.bindings[k].0) && m.map.dom().finite()
            && m.map.dom().len() == bound.dom().len() + n && (forall|slot: Slot|
            #[trigger] m.map.contains_key(slot) ==> bound.contains_key(slot) || m.seen.contains(
                slot,
            )),
    decreases n,
{
    if n > 0 {
        lemma_part_compiles(bound, part, n - 1);
        let entries = section_of(part).entries;
        let m = bindings::with_entries(bound, part.scope, entries, n - 1, false)->Ok_0;
        let (slot, action) = part.bindings[n - 1];
        assert(laws::writable(slot));
        laws::written_keys_read_back(slot);
        laws::action_names_round_trip(action);
        let bits = slot.modifiers;
        assert(bits & 7 == bits) by (bit_vector)
            requires
                bits <= 7,
        ;
        assert(!m.seen.contains(slot)) by {
            if m.seen.contains(slot) {
                let k = m.seen.index_of(slot);
                assert(m.seen[k] == part.bindings[k].0);
                assert(part.bindings[k].0.rank_of() < part.bindings[n - 1].0.rank_of());
            }
        }
        assert(entries[n - 1] == entry_of(part.bindings[n - 1]));
        assert(!m.map.contains_key(slot));
        let next = m.map.insert(slot, action);
        let seen = m.seen.push(slot);
        assert(next.dom() =~= m.map.dom().insert(slot));
        assert forall|other: Slot| #[trigger] next.contains_key(other) implies bound.contains_key(
            other,
        ) || seen.contains(other) by {
            if other == slot {
                assert(seen[n - 1] == slot);
            } else if m.seen.contains(other) {
                let k = m.seen.index_of(other);
                assert(seen[k] == other);
            }
        }
    }
}

/// The name of a scope is read as the scope.
proof fn lemma_scope_named(scope: Scope)
    ensures
        bindings::scope_named(scope_name(scope)) == Some(scope),
{
    match scope {
        Scope::Global => {},
        Scope::In(state) => {
            laws::sections_round_trip(state);
        },
    }
}

/// The name of a scope can be that of a section.
proof fn lemma_scope_name_is_one(scope: Scope)
    ensures
        config_text::section_name(scope_name(scope)),
{
    reveal_strlit("global");
    reveal_strlit("idle");
    reveal_strlit("composing");
    reveal_strlit("converting");
    reveal_strlit("predicting");
}

/// Sound parts compile, and each of their bindings is one of the key map.
proof fn lemma_parts_compile(parts: Seq<Part>, n: int)
    requires
        sound(parts),
        0 <= n <= parts.len(),
    ensures
        bindings::with_sections(Map::empty(), document_of(parts), n, false) matches Ok(bound)
            && bound.dom().finite() && bound.dom().len() == total(parts.take(n)) && (forall|
            slot: Slot,
        |
            #[trigger] bound.contains_key(slot) ==> exists|i: int|
                0 <= i < n && (#[trigger] parts[i]).scope == slot.scope),
    decreases n,
{
    let document = document_of(parts);
    if n > 0 {
        lemma_parts_compile(parts, n - 1);
        let before = bindings::with_sections(Map::empty(), document, n - 1, false)->Ok_0;
        let part = parts[n - 1];
        let name = scope_name(part.scope);
        lemma_scope_named(part.scope);
        assert(document[n - 1] == section_of(part));
        config::lemma_find_section(document, name, 0);
        let k = config::find_section(document, name, 0);
        assert(document[n - 1].name == name);
        assert(k is Some);
        assert(document[k->Some_0] == section_of(parts[k->Some_0]));
        if k->Some_0 != n - 1 {
            lemma_scope_names_differ(parts[k->Some_0].scope, part.scope);
        }
        let all = part.bindings.len() as int;
        lemma_part_compiles(before, part, all);
        let m = bindings::with_entries(before, part.scope, section_of(part).entries, all, false)->Ok_0;
        assert forall|slot: Slot| #[trigger] m.map.contains_key(slot) implies exists|i: int|
            0 <= i < n && (#[trigger] parts[i]).scope == slot.scope by {
            if m.seen.contains(slot) {
                let j = m.seen.index_of(slot);
                assert(m.seen[j] == part.bindings[j].0);
                assert(parts[n - 1].scope == slot.scope);
            }
        }
        assert(parts.take(n).drop_last() =~= parts.take(n - 1));
        assert(parts.take(n).last() == part);
    }
}

// ---------------------------------------------------------------------------
// Following a source.

/// Whether the lines of a source before `i` are those of sound parts.
#[verifier::opaque]
pub open spec fn halfway(s: Seq<char>, i: int, parts: Seq<Part>) -> bool {
    &&& 0 <= i <= s.len()
    &&& sound(parts)
    &&& exists|number: int|
        config::parsed_from(s, 0, 1, Seq::empty()) == #[trigger] config::parsed_from(
            s,
            i,
            number,
            document_of(parts),
        )
}

proof fn lemma_start(s: Seq<char>) -> (parts: Seq<Part>)
    ensures
        parts.len() == 0,
        total(parts) == 0,
        halfway(s, 0, parts),
{
    reveal(halfway);
    let parts = Seq::<Part>::empty();
    assert(document_of(parts) =~= Seq::<SectionView>::empty());
    assert(config::parsed_from(s, 0, 1, Seq::empty()) == config::parsed_from(
        s,
        0,
        1,
        document_of(parts),
    ));
    parts
}

/// A line is read, and then the rest.
proof fn lemma_line(
    s: Seq<char>,
    i: int,
    line: Seq<char>,
    parts: Seq<Part>,
    read: LineView,
    after: Seq<Part>,
)
    requires
        halfway(s, i, parts),
        sound(after),
        i + line.len() < s.len(),
        s.subrange(i, i + line.len()) == line,
        s[i + line.len()] == '\n',
        forall|k: int| 0 <= k < line.len() ==> #[trigger] line[k] != '\n',
        config::line_view(line) == Ok::<LineView, ParseErrorKind>(read),
        config::with_line(document_of(parts), read) == Ok::<Seq<SectionView>, ParseErrorKind>(
            document_of(after),
        ),
    ensures
        halfway(s, i + line.len() + 1, after),
{
    reveal(halfway);
    let document = document_of(parts);
    let number = choose|number: int|
        config::parsed_from(s, 0, 1, Seq::empty()) == #[trigger] config::parsed_from(
            s,
            i,
            number,
            document,
        );
    config_text::lemma_line_read(s, i, line, number, document, read, document_of(after));
}

/// An empty line is passed over.
proof fn blank(s: Seq<char>, i: int, parts: Seq<Part>)
    requires
        halfway(s, i, parts),
        i < s.len(),
        s[i] == '\n',
    ensures
        halfway(s, i + 1, parts),
{
    let line = Seq::<char>::empty();
    assert(0 <= i && sound(parts)) by {
        reveal(halfway);
    }
    assert(s.subrange(i, i) =~= line);
    assert(config::line_view(line) == Ok::<LineView, ParseErrorKind>(LineView::Blank));
    lemma_line(s, i, line, parts, LineView::Blank, parts);
}

/// A section begins.
proof fn section(s: Seq<char>, i: int, parts: Seq<Part>, scope: Scope) -> (after: Seq<Part>)
    requires
        halfway(s, i, parts),
        parts.len() > 0 ==> scope_rank(parts.last().scope) < scope_rank(scope),
        i + scope_name(scope).len() + 3 <= s.len(),
        s.subrange(i, i + scope_name(scope).len() + 3) =~= "["@ + scope_name(scope) + "]\n"@,
    ensures
        halfway(s, i + scope_name(scope).len() + 3, after),
        after.len() == parts.len() + 1,
        after.last().scope == scope,
        after.last().bindings.len() == 0,
        total(after) == total(parts),
{
    reveal_strlit("[");
    reveal_strlit("]");
    reveal_strlit("]\n");
    let name = scope_name(scope);
    lemma_scope_name_is_one(scope);
    let line = config_text::header_line(name);
    let whole = s.subrange(i, i + name.len() + 3);
    assert(0 <= i && sound(parts)) by {
        reveal(halfway);
    }
    assert(s.subrange(i, i + line.len()) =~= line) by {
        assert forall|k: int| 0 <= k < line.len() implies s.subrange(i, i + line.len())[k]
            == line[k] by {
            assert(whole[k] == s[i + k]);
        }
    }
    assert(whole[name.len() as int + 2] == s[i + name.len() + 2]);
    config_text::lemma_header_line(name);
    let part = Part { scope, bindings: Seq::empty() };
    let after = parts.push(part);
    let document = document_of(parts);
    config::lemma_find_section(document, name, 0);
    if let Some(k) = config::find_section(document, name, 0) {
        assert(document[k] == section_of(parts[k]));
        lemma_scope_names_differ(parts[k].scope, scope);
    }
    assert(sound(after)) by {
        assert forall|a: int| 0 <= a < after.len() implies part_sound(#[trigger] after[a]) by {
            if a < parts.len() {
                assert(after[a] == parts[a]);
            }
        }
    }
    assert(after.drop_last() =~= parts);
    assert(section_of(part).entries =~= Seq::<EntryView>::empty());
    assert(document_of(after) =~= document.push(
        SectionView { name, entries: Seq::empty() },
    ));
    lemma_line(s, i, line, parts, LineView::Header(name), after);
    after
}

/// The line of a binding, with its end.
pub open spec fn binding_line(key: Seq<char>, action: Action) -> Seq<char> {
    "\""@ + key + "\" = \""@ + action.name_of() + "\"\n"@
}

/// A slot is bound.
proof fn bind(s: Seq<char>, i: int, parts: Seq<Part>, slot: Slot, action: Action) -> (after: Seq<
    Part,
>)
    requires
        halfway(s, i, parts),
        parts.len() > 0,
        slot.scope == parts.last().scope,
        laws::writable(slot),
        parts.last().bindings.len() > 0 ==> parts.last().bindings.last().0.rank_of()
            < slot.rank_of(),
        i + binding_line(key_spec::slot_text(slot), action).len() <= s.len(),
        s.subrange(i, i + binding_line(key_spec::slot_text(slot), action).len()) == binding_line(
            key_spec::slot_text(slot),
            action,
        ),
        config_text::plain(key_spec::slot_text(slot)),
        config_text::plain(action.name_of()),
    ensures
        halfway(s, i + binding_line(key_spec::slot_text(slot), action).len(), after),
        after.len() == parts.len(),
        after.last().scope == parts.last().scope,
        after.last().bindings.len() > 0,
        after.last().bindings.last() == (slot, action),
        total(after) == total(parts) + 1,
{
    reveal_strlit("\"");
    reveal_strlit("\" = \"");
    reveal_strlit("\"\n");
    let key = key_spec::slot_text(slot);
    let value = action.name_of();
    let line = "\""@ + key + "\" = \""@ + value + "\""@;
    let whole = binding_line(key, action);
    let n = line.len() as int;
    assert(0 <= i && sound(parts)) by {
        reveal(halfway);
    }
    assert(whole.len() == n + 1);
    assert(s.subrange(i, i + n) =~= line) by {
        assert forall|k: int| 0 <= k < n implies s.subrange(i, i + n)[k] == line[k] by {
            assert(s.subrange(i, i + whole.len())[k] == s[i + k]);
            assert(whole[k] == line[k]);
        }
    }
    assert(s.subrange(i, i + whole.len())[n] == s[i + n]);
    config_text::lemma_quoted_entry(key, value);
    let last = parts.last();
    let part = Part { scope: last.scope, bindings: last.bindings.push((slot, action)) };
    let after = parts.drop_last().push(part);
    assert(after.drop_last() =~= parts.drop_last());
    assert(part_sound(parts[parts.len() - 1]));
    lemma_ascending_push(last.bindings, slot, action);
    assert(part_sound(part)) by {
        assert forall|k: int| 0 <= k < part.bindings.len() implies (
        #[trigger] part.bindings[k]).0.scope == part.scope && laws::writable(part.bindings[k].0) by {
            if k < last.bindings.len() {
                assert(part.bindings[k] == last.bindings[k]);
            }
        }
    }
    assert(sound(after)) by {
        assert forall|a: int| 0 <= a < after.len() implies part_sound(#[trigger] after[a]) by {
            if a < parts.len() - 1 {
                assert(after[a] == parts[a]);
            }
        }
        assert forall|a: int, b: int| 0 <= a < b < after.len() implies scope_rank(
            (#[trigger] after[a]).scope,
        ) < scope_rank((#[trigger] after[b]).scope) by {
            assert(after[a].scope == parts[a].scope);
            assert(after[b].scope == parts[b].scope);
        }
    }
    let document = document_of(parts);
    let entries = section_of(last).entries;
    let entry = config_text::text_entry(key, value);
    assert(document.last() == section_of(last));
    config::lemma_find_entry(entries, key, 0);
    if let Some(k) = config::find_entry(entries, key, 0) {
        assert(entries[k] == entry_of(last.bindings[k]));
        assert(part.bindings[k] == last.bindings[k]);
        assert(part.bindings[last.bindings.len() as int] == (slot, action));
        assert(last.bindings[k].0.rank_of() < slot.rank_of());
        lemma_keys_differ(last.bindings[k].0, slot);
    }
    assert(section_of(part).entries =~= entries.push(entry));
    assert(document_of(after) =~= document.drop_last().push(
        SectionView { name: document.last().name, entries: entries.push(entry) },
    ));
    lemma_line(s, i, line, parts, LineView::Pair(entry), after);
    after
}

proof fn lemma_ascending_push(list: Seq<(Slot, Action)>, slot: Slot, action: Action)
    requires
        bindings::ascending(list),
        list.len() > 0 ==> list.last().0.rank_of() < slot.rank_of(),
    ensures
        bindings::ascending(list.push((slot, action))),
{
    let longer = list.push((slot, action));
    assert forall|a: int, b: int| 0 <= a < b < longer.len() implies (
    #[trigger] longer[a]).0.rank_of() < (#[trigger] longer[b]).0.rank_of() by {
        assert(longer[a] == list[a]);
        if b < list.len() {
            assert(longer[b] == list[b]);
        } else if a < list.len() - 1 {
            assert(list[a].0.rank_of() < list[list.len() - 1].0.rank_of());
        }
    }
}

/// A source that was followed to its end compiles.
proof fn lemma_end(s: Seq<char>, parts: Seq<Part>)
    requires
        halfway(s, s.len() as int, parts),
        s.len() < usize::MAX,
        total(parts) > 0,
    ensures
        compiles(s, total(parts)),
{
    reveal(halfway);
    let document = document_of(parts);
    let n = s.len() as int;
    let none = Seq::<char>::empty();
    assert(s.subrange(n, n) =~= none);
    assert(config::line_end(s, n) == n);
    assert(config::line_view(none) == Ok::<LineView, ParseErrorKind>(LineView::Blank));
    lemma_parts_compile(parts, parts.len() as int);
    assert(parts.take(parts.len() as int) =~= parts);
}

/// Whether a source compiles, to so many bindings.
pub open spec fn compiles(source: Seq<char>, n: nat) -> bool {
    config::parsed(source) matches Ok(document) && (bindings::compiled(document) matches Ok(bound)
        && bound.dom().finite() && bound.dom().len() == n)
}

// ---------------------------------------------------------------------------
// The ways to write a key.

/// The name of a key holds nothing that a text has to escape.
proof fn lemma_key_name_is_plain(code: KeyCode)
    ensures
        code.name_of() matches Some(name) ==> config_text::plain(name),
{
    match code {
        KeyCode::Unknown => {},
        KeyCode::Char => {},
        KeyCode::Space => {
            reveal_strlit("space");
        },
        KeyCode::Enter => {
            reveal_strlit("enter");
        },
        KeyCode::Escape => {
            reveal_strlit("escape");
        },
        KeyCode::Backspace => {
            reveal_strlit("backspace");
        },
        KeyCode::Delete => {
            reveal_strlit("delete");
        },
        KeyCode::Tab => {
            reveal_strlit("tab");
        },
        KeyCode::Left => {
            reveal_strlit("left");
        },
        KeyCode::Right => {
            reveal_strlit("right");
        },
        KeyCode::Up => {
            reveal_strlit("up");
        },
        KeyCode::Down => {
            reveal_strlit("down");
        },
        KeyCode::Home => {
            reveal_strlit("home");
        },
        KeyCode::End => {
            reveal_strlit("end");
        },
        KeyCode::PageUp => {
            reveal_strlit("page_up");
        },
        KeyCode::PageDown => {
            reveal_strlit("page_down");
        },
        KeyCode::Henkan => {
            reveal_strlit("henkan");
        },
        KeyCode::Muhenkan => {
            reveal_strlit("muhenkan");
        },
        KeyCode::KanaMode => {
            reveal_strlit("kana_mode");
        },
        KeyCode::HankakuZenkaku => {
            reveal_strlit("hankaku_zenkaku");
        },
        KeyCode::CapsLock => {
            reveal_strlit("caps_lock");
        },
        KeyCode::F1 => {
            reveal_strlit("f1");
        },
        KeyCode::F2 => {
            reveal_strlit("f2");
        },
        KeyCode::F3 => {
            reveal_strlit("f3");
        },
        KeyCode::F4 => {
            reveal_strlit("f4");
        },
        KeyCode::F5 => {
            reveal_strlit("f5");
        },
        KeyCode::F6 => {
            reveal_strlit("f6");
        },
        KeyCode::F7 => {
            reveal_strlit("f7");
        },
        KeyCode::F8 => {
            reveal_strlit("f8");
        },
        KeyCode::F9 => {
            reveal_strlit("f9");
        },
        KeyCode::F10 => {
            reveal_strlit("f10");
        },
        KeyCode::F11 => {
            reveal_strlit("f11");
        },
        KeyCode::F12 => {
            reveal_strlit("f12");
        },
    }
}

/// The name of an action holds nothing that a text has to escape.
proof fn lemma_action_name_is_plain(action: Action)
    ensures
        config_text::plain(action.name_of()),
{
    match action {
        Action::ImeToggle => {
            reveal_strlit("ime_toggle");
        },
        Action::ImeOn => {
            reveal_strlit("ime_on");
        },
        Action::ImeOff => {
            reveal_strlit("ime_off");
        },
        Action::ModeHiragana => {
            reveal_strlit("mode_hiragana");
        },
        Action::ModeKatakana => {
            reveal_strlit("mode_katakana");
        },
        Action::ModeHalfKatakana => {
            reveal_strlit("mode_half_katakana");
        },
        Action::ModeFullAlnum => {
            reveal_strlit("mode_full_alnum");
        },
        Action::ModeHalfAlnum => {
            reveal_strlit("mode_half_alnum");
        },
        Action::ModeDirect => {
            reveal_strlit("mode_direct");
        },
        Action::ModeKanaToggle => {
            reveal_strlit("mode_kana_toggle");
        },
        Action::ModeKanaCycle => {
            reveal_strlit("mode_kana_cycle");
        },
        Action::ModeAlnumToggle => {
            reveal_strlit("mode_alnum_toggle");
        },
        Action::ModeAlnumWidthToggle => {
            reveal_strlit("mode_alnum_width_toggle");
        },
        Action::Commit => {
            reveal_strlit("commit");
        },
        Action::CommitFirst => {
            reveal_strlit("commit_first");
        },
        Action::Cancel => {
            reveal_strlit("cancel");
        },
        Action::Convert => {
            reveal_strlit("convert");
        },
        Action::ConvertPrev => {
            reveal_strlit("convert_prev");
        },
        Action::CandidateNext => {
            reveal_strlit("candidate_next");
        },
        Action::CandidatePrev => {
            reveal_strlit("candidate_prev");
        },
        Action::CandidatePageDown => {
            reveal_strlit("candidate_page_down");
        },
        Action::CandidatePageUp => {
            reveal_strlit("candidate_page_up");
        },
        Action::Candidate1 => {
            reveal_strlit("candidate_1");
        },
        Action::Candidate2 => {
            reveal_strlit("candidate_2");
        },
        Action::Candidate3 => {
            reveal_strlit("candidate_3");
        },
        Action::Candidate4 => {
            reveal_strlit("candidate_4");
        },
        Action::Candidate5 => {
            reveal_strlit("candidate_5");
        },
        Action::Candidate6 => {
            reveal_strlit("candidate_6");
        },
        Action::Candidate7 => {
            reveal_strlit("candidate_7");
        },
        Action::Candidate8 => {
            reveal_strlit("candidate_8");
        },
        Action::Candidate9 => {
            reveal_strlit("candidate_9");
        },
        Action::CandidateExpand => {
            reveal_strlit("candidate_expand");
        },
        Action::PredictNext => {
            reveal_strlit("predict_next");
        },
        Action::PredictPrev => {
            reveal_strlit("predict_prev");
        },
        Action::DeletePredictionHistory => {
            reveal_strlit("delete_prediction_history");
        },
        Action::SegmentPrev => {
            reveal_strlit("segment_prev");
        },
        Action::SegmentNext => {
            reveal_strlit("segment_next");
        },
        Action::SegmentShrink => {
            reveal_strlit("segment_shrink");
        },
        Action::SegmentGrow => {
            reveal_strlit("segment_grow");
        },
        Action::SegmentHome => {
            reveal_strlit("segment_home");
        },
        Action::SegmentEnd => {
            reveal_strlit("segment_end");
        },
        Action::CaretLeft => {
            reveal_strlit("caret_left");
        },
        Action::CaretRight => {
            reveal_strlit("caret_right");
        },
        Action::CaretHome => {
            reveal_strlit("caret_home");
        },
        Action::CaretEnd => {
            reveal_strlit("caret_end");
        },
        Action::DeleteBack => {
            reveal_strlit("delete_back");
        },
        Action::DeleteForward => {
            reveal_strlit("delete_forward");
        },
        Action::Swallow => {
            reveal_strlit("swallow");
        },
        Action::TransformHiragana => {
            reveal_strlit("transform_hiragana");
        },
        Action::TransformKatakana => {
            reveal_strlit("transform_katakana");
        },
        Action::TransformHalfKatakana => {
            reveal_strlit("transform_half_katakana");
        },
        Action::TransformFullAlnum => {
            reveal_strlit("transform_full_alnum");
        },
        Action::TransformHalfAlnum => {
            reveal_strlit("transform_half_alnum");
        },
        Action::Reconvert => {
            reveal_strlit("reconvert");
        },
        Action::UndoCommit => {
            reveal_strlit("undo_commit");
        },
    }
}

/// What a key is written with in front of it.
pub open spec fn word_of(bits: u8) -> Seq<char> {
    if bits == Modifiers::SHIFT {
        "shift+"@
    } else if bits == Modifiers::CTRL {
        "ctrl+"@
    } else if bits == Modifiers::ALT {
        "alt+"@
    } else {
        Seq::empty()
    }
}

/// How a key with one modifier or none is written.
proof fn lemma_key_text(slot: Slot)
    requires
        slot.modifiers == 0 || slot.modifiers == Modifiers::SHIFT || slot.modifiers
            == Modifiers::CTRL || slot.modifiers == Modifiers::ALT,
    ensures
        key_spec::slot_text(slot) == word_of(slot.modifiers) + key_spec::trigger_text(slot.trigger),
{
    assert(0u8 & 1 == 0 && 0u8 & 2 == 0 && 0u8 & 4 == 0) by (bit_vector);
    assert(1u8 & 1 == 1 && 1u8 & 2 == 0 && 1u8 & 4 == 0) by (bit_vector);
    assert(2u8 & 1 == 0 && 2u8 & 2 == 2 && 2u8 & 4 == 0) by (bit_vector);
    assert(4u8 & 1 == 0 && 4u8 & 2 == 0 && 4u8 & 4 == 4) by (bit_vector);
    assert(key_spec::slot_text(slot) =~= word_of(slot.modifiers) + key_spec::trigger_text(
        slot.trigger,
    ));
}

/// Whether a binding stands in a source at `i`, piece by piece.
pub open spec fn stands(
    s: Seq<char>,
    i: int,
    word: Seq<char>,
    name: Seq<char>,
    action: Action,
) -> bool {
    let j = i + 1 + word.len();
    let k = j + name.len();
    let n = k + 5 + action.name_of().len();
    &&& n + 2 <= s.len()
    &&& s[i] == '"'
    &&& config_text::text_at(s, i + 1, word)
    &&& config_text::text_at(s, j, name)
    &&& s[k] == '"'
    &&& s[k + 1] == ' '
    &&& s[k + 2] == '='
    &&& s[k + 3] == ' '
    &&& s[k + 4] == '"'
    &&& config_text::text_at(s, k + 5, action.name_of())
    &&& s[n] == '"'
    &&& s[n + 1] == '\n'
}

/// What stands there piece by piece is the line of the binding.
proof fn lemma_stands(s: Seq<char>, i: int, word: Seq<char>, name: Seq<char>, action: Action)
    requires
        0 <= i,
        stands(s, i, word, name, action),
    ensures
        ({
            let line = binding_line(word + name, action);
            &&& line.len() == word.len() + name.len() + action.name_of().len() + 8
            &&& s.subrange(i, i + line.len()) == line
        }),
{
    reveal_strlit("\"");
    reveal_strlit("\" = \"");
    reveal_strlit("\"\n");
    let value = action.name_of();
    let line = binding_line(word + name, action);
    let j = i + 1 + word.len();
    let k = j + name.len();
    let n = k + 5 + value.len();
    assert(line.len() == word.len() + name.len() + value.len() + 8);
    assert forall|m: int| 0 <= m < line.len() implies s[i + m] == line[m] by {
        if 1 <= m < j - i {
            assert(s.subrange(i + 1, j)[m - 1] == word[m - 1]);
        } else if j - i <= m < k - i {
            assert(s.subrange(j, k)[m - (j - i)] == name[m - (j - i)]);
        } else if k + 5 - i <= m < n - i {
            assert(s.subrange(k + 5, n)[m - (k + 5 - i)] == value[m - (k + 5 - i)]);
        }
    }
    assert(s.subrange(i, i + line.len()) =~= line);
}

/// Whether a slot of the last part comes behind the slots of the part so far.
pub open spec fn follows(parts: Seq<Part>, trigger: Trigger, modifiers: u8) -> bool {
    let slot = Slot { scope: parts.last().scope, trigger, modifiers };
    parts.last().bindings.len() > 0 ==> parts.last().bindings.last().0.rank_of() < slot.rank_of()
}

/// Whether a slot of the last part is bound, and that is all.
pub open spec fn is_bound(
    before: Seq<Part>,
    after: Seq<Part>,
    trigger: Trigger,
    modifiers: u8,
    action: Action,
) -> bool {
    let slot = Slot { scope: before.last().scope, trigger, modifiers };
    &&& after.len() == before.len()
    &&& after.last().scope == before.last().scope
    &&& after.last().bindings.len() > 0
    &&& after.last().bindings.last() == (slot, action)
    &&& total(after) == total(before) + 1
}

/// A key is bound.
proof fn bind_key(
    s: Seq<char>,
    i: int,
    parts: Seq<Part>,
    trigger: Trigger,
    modifiers: u8,
    name: Seq<char>,
    action: Action,
) -> (after: Seq<Part>)
    requires
        halfway(s, i, parts),
        parts.len() > 0,
        modifiers == 0 || modifiers == Modifiers::SHIFT || modifiers == Modifiers::CTRL
            || modifiers == Modifiers::ALT,
        laws::writable(Slot { scope: parts.last().scope, trigger, modifiers }),
        name == key_spec::trigger_text(trigger),
        config_text::plain(name),
        config_text::plain(action.name_of()),
        follows(parts, trigger, modifiers),
        stands(s, i, word_of(modifiers), name, action),
    ensures
        is_bound(parts, after, trigger, modifiers, action),
        halfway(
            s,
            i + word_of(modifiers).len() + name.len() + action.name_of().len() + 8,
            after,
        ),
{
    reveal_strlit("shift+");
    reveal_strlit("ctrl+");
    reveal_strlit("alt+");
    let slot = Slot { scope: parts.last().scope, trigger, modifiers };
    let word = word_of(modifiers);
    lemma_key_text(slot);
    assert(0 <= i) by {
        reveal(halfway);
    }
    lemma_stands(s, i, word, name, action);
    assert(config_text::plain(word + name)) by {
        assert forall|k: int| 0 <= k < (word + name).len() implies #[trigger] (word + name)[k]
            != '"' && (word + name)[k] != '\\' && (word + name)[k] != '\n' by {
            if k >= word.len() {
                assert((word + name)[k] == name[k - word.len()]);
            }
        }
    }
    bind(s, i, parts, slot, action)
}

/// A key by itself is bound.
proof fn key(s: Seq<char>, i: int, parts: Seq<Part>, code: KeyCode, action: Action) -> (after: Seq<
    Part,
>)
    requires
        halfway(s, i, parts),
        parts.len() > 0,
        code.name_of() is Some,
        follows(parts, Trigger::Code(code.number_of()), 0),
        stands(s, i, Seq::empty(), code.name_of()->0, action),
    ensures
        is_bound(parts, after, Trigger::Code(code.number_of()), 0, action),
        halfway(s, i + code.name_of()->0.len() + action.name_of().len() + 8, after),
{
    keys::lemma_listed(code);
    lemma_key_name_is_plain(code);
    lemma_action_name_is_plain(action);
    bind_key(s, i, parts, Trigger::Code(code.number_of()), 0, code.name_of()->0, action)
}

/// A key with Shift is bound.
proof fn shift_key(s: Seq<char>, i: int, parts: Seq<Part>, code: KeyCode, action: Action) -> (after: Seq<
    Part,
>)
    requires
        halfway(s, i, parts),
        parts.len() > 0,
        code.name_of() is Some,
        follows(parts, Trigger::Code(code.number_of()), Modifiers::SHIFT),
        stands(s, i, "shift+"@, code.name_of()->0, action),
    ensures
        is_bound(parts, after, Trigger::Code(code.number_of()), Modifiers::SHIFT, action),
        halfway(s, i + "shift+"@.len() + code.name_of()->0.len() + action.name_of().len() + 8, after),
{
    keys::lemma_listed(code);
    lemma_key_name_is_plain(code);
    lemma_action_name_is_plain(action);
    bind_key(s, i, parts, Trigger::Code(code.number_of()), Modifiers::SHIFT, code.name_of()->0, action)
}

/// A key with Control is bound.
proof fn ctrl_key(s: Seq<char>, i: int, parts: Seq<Part>, code: KeyCode, action: Action) -> (after: Seq<
    Part,
>)
    requires
        halfway(s, i, parts),
        parts.len() > 0,
        code.name_of() is Some,
        follows(parts, Trigger::Code(code.number_of()), Modifiers::CTRL),
        stands(s, i, "ctrl+"@, code.name_of()->0, action),
    ensures
        is_bound(parts, after, Trigger::Code(code.number_of()), Modifiers::CTRL, action),
        halfway(s, i + "ctrl+"@.len() + code.name_of()->0.len() + action.name_of().len() + 8, after),
{
    keys::lemma_listed(code);
    lemma_key_name_is_plain(code);
    lemma_action_name_is_plain(action);
    bind_key(s, i, parts, Trigger::Code(code.number_of()), Modifiers::CTRL, code.name_of()->0, action)
}

/// The key of a character is bound.
proof fn character(s: Seq<char>, i: int, parts: Seq<Part>, c: char, action: Action) -> (after: Seq<Part>)
    requires
        halfway(s, i, parts),
        parts.len() > 0,
        c == kana::lower(c),
        c != '"' && c != '\\' && c != '\n',
        follows(parts, Trigger::Char(c), 0),
        stands(s, i, Seq::empty(), seq![c], action),
    ensures
        is_bound(parts, after, Trigger::Char(c), 0, action),
        halfway(s, i + 1 + action.name_of().len() + 8, after),
{
    lemma_action_name_is_plain(action);
    bind_key(s, i, parts, Trigger::Char(c), 0, seq![c], action)
}

/// The key of a character with Control is bound.
proof fn ctrl_character(s: Seq<char>, i: int, parts: Seq<Part>, c: char, action: Action) -> (after: Seq<Part>)
    requires
        halfway(s, i, parts),
        parts.len() > 0,
        c == kana::lower(c),
        c != '"' && c != '\\' && c != '\n',
        follows(parts, Trigger::Char(c), Modifiers::CTRL),
        stands(s, i, "ctrl+"@, seq![c], action),
    ensures
        is_bound(parts, after, Trigger::Char(c), Modifiers::CTRL, action),
        halfway(s, i + "ctrl+"@.len() + 1 + action.name_of().len() + 8, after),
{
    lemma_action_name_is_plain(action);
    bind_key(s, i, parts, Trigger::Char(c), Modifiers::CTRL, seq![c], action)
}

/// The key of a character with Alt is bound.
proof fn alt_character(s: Seq<char>, i: int, parts: Seq<Part>, c: char, action: Action) -> (after: Seq<Part>)
    requires
        halfway(s, i, parts),
        parts.len() > 0,
        c == kana::lower(c),
        c != '"' && c != '\\' && c != '\n',
        follows(parts, Trigger::Char(c), Modifiers::ALT),
        stands(s, i, "alt+"@, seq![c], action),
    ensures
        is_bound(parts, after, Trigger::Char(c), Modifiers::ALT, action),
        halfway(s, i + "alt+"@.len() + 1 + action.name_of().len() + 8, after),
{
    lemma_action_name_is_plain(action);
    bind_key(s, i, parts, Trigger::Char(c), Modifiers::ALT, seq![c], action)
}

// ---------------------------------------------------------------------------
// The shipped key maps.

/// The first sections of Microsoft IME: `global`, `idle`, `composing`.
#[verifier::spinoff_prover]
#[verifier::rlimit(100)]
proof fn lemma_ms_ime_first() -> (after: Seq<Part>)
    ensures
        halfway(MS_IME_PRESET@, 1167, after),
        after.len() > 0,
        scope_rank(after.last().scope) == 2,
        total(after) == 40,
{
    let s = MS_IME_PRESET@;
    reveal_strlit("\
[global]\n\
\"muhenkan\" = \"mode_kana_cycle\"\n\
\"shift+muhenkan\" = \"mode_alnum_width_toggle\"\n\
\"kana_mode\" = \"mode_hiragana\"\n\
\"shift+kana_mode\" = \"mode_katakana\"\n\
\"hankaku_zenkaku\" = \"ime_toggle\"\n\
\"caps_lock\" = \"mode_alnum_toggle\"\n\
\"shift+caps_lock\" = \"mode_katakana\"\n\
\"ctrl+caps_lock\" = \"mode_hiragana\"\n\
\"alt+`\" = \"ime_toggle\"\n\
\n\
[idle]\n\
\"ctrl+backspace\" = \"undo_commit\"\n\
\"henkan\" = \"reconvert\"\n\
\n\
[composing]\n\
\"space\" = \"convert\"\n\
\"shift+space\" = \"convert\"\n\
\"enter\" = \"commit\"\n\
\"shift+enter\" = \"commit_first\"\n\
\"escape\" = \"cancel\"\n\
\"backspace\" = \"delete_back\"\n\
\"shift+backspace\" = \"delete_back\"\n\
\"delete\" = \"delete_forward\"\n\
\"tab\" = \"predict_next\"\n\
\"shift+tab\" = \"predict_prev\"\n\
\"left\" = \"caret_left\"\n\
\"right\" = \"caret_right\"\n\
\"up\" = \"predict_prev\"\n\
\"down\" = \"predict_next\"\n\
\"home\" = \"caret_home\"\n\
\"end\" = \"caret_end\"\n\
\"page_up\" = \"swallow\"\n\
\"page_down\" = \"swallow\"\n\
\"henkan\" = \"convert\"\n\
\"f6\" = \"transform_hiragana\"\n\
\"f7\" = \"transform_katakana\"\n\
\"f8\" = \"transform_half_katakana\"\n\
\"f9\" = \"transform_full_alnum\"\n\
\"f10\" = \"transform_half_alnum\"\n\
\"ctrl+i\" = \"transform_katakana\"\n\
\"ctrl+o\" = \"transform_half_katakana\"\n\
\"ctrl+p\" = \"transform_full_alnum\"\n\
\"ctrl+t\" = \"transform_half_alnum\"\n\
\"ctrl+u\" = \"transform_hiragana\"\n\
\n\
[converting]\n\
\"space\" = \"candidate_next\"\n\
\"shift+space\" = \"candidate_prev\"\n\
\"enter\" = \"commit\"\n\
\"escape\" = \"cancel\"\n\
\"backspace\" = \"cancel\"\n\
\"shift+backspace\" = \"cancel\"\n\
\"delete\" = \"swallow\"\n\
\"ctrl+delete\" = \"swallow\"\n\
\"tab\" = \"candidate_expand\"\n\
\"shift+tab\" = \"swallow\"\n\
\"left\" = \"segment_prev\"\n\
\"shift+left\" = \"segment_shrink\"\n\
\"right\" = \"segment_next\"\n\
\"shift+right\" = \"segment_grow\"\n\
\"up\" = \"candidate_prev\"\n\
\"down\" = \"candidate_next\"\n\
\"home\" = \"segment_home\"\n\
\"end\" = \"segment_end\"\n\
\"page_up\" = \"candidate_page_up\"\n\
\"page_down\" = \"candidate_page_down\"\n\
\"henkan\" = \"candidate_next\"\n\
\"shift+henkan\" = \"candidate_prev\"\n\
\"f6\" = \"transform_hiragana\"\n\
\"f7\" = \"transform_katakana\"\n\
\"f8\" = \"transform_half_katakana\"\n\
\"f9\" = \"transform_full_alnum\"\n\
\"f10\" = \"transform_half_alnum\"\n\
\"1\" = \"candidate_1\"\n\
\"2\" = \"candidate_2\"\n\
\"3\" = \"candidate_3\"\n\
\"4\" = \"candidate_4\"\n\
\"5\" = \"candidate_5\"\n\
\"6\" = \"candidate_6\"\n\
\"7\" = \"candidate_7\"\n\
\"8\" = \"candidate_8\"\n\
\"9\" = \"candidate_9\"\n\
\"ctrl+i\" = \"transform_katakana\"\n\
\"ctrl+o\" = \"transform_half_katakana\"\n\
\"ctrl+p\" = \"transform_full_alnum\"\n\
\"ctrl+t\" = \"transform_half_alnum\"\n\
\"ctrl+u\" = \"transform_hiragana\"\n\
\n\
[predicting]\n\
\"space\" = \"convert\"\n\
\"shift+space\" = \"convert\"\n\
\"enter\" = \"commit\"\n\
\"shift+enter\" = \"commit_first\"\n\
\"escape\" = \"cancel\"\n\
\"backspace\" = \"delete_back\"\n\
\"shift+backspace\" = \"delete_back\"\n\
\"delete\" = \"delete_forward\"\n\
\"ctrl+delete\" = \"delete_prediction_history\"\n\
\"tab\" = \"predict_next\"\n\
\"shift+tab\" = \"predict_prev\"\n\
\"left\" = \"caret_left\"\n\
\"right\" = \"caret_right\"\n\
\"up\" = \"predict_prev\"\n\
\"down\" = \"predict_next\"\n\
\"home\" = \"caret_home\"\n\
\"end\" = \"caret_end\"\n\
\"page_up\" = \"candidate_page_up\"\n\
\"page_down\" = \"candidate_page_down\"\n\
\"henkan\" = \"convert\"\n\
\"f6\" = \"transform_hiragana\"\n\
\"f7\" = \"transform_katakana\"\n\
\"f8\" = \"transform_half_katakana\"\n\
\"f9\" = \"transform_full_alnum\"\n\
\"f10\" = \"transform_half_alnum\"\n\
\"1\" = \"candidate_1\"\n\
\"2\" = \"candidate_2\"\n\
\"3\" = \"candidate_3\"\n\
\"4\" = \"candidate_4\"\n\
\"5\" = \"candidate_5\"\n\
\"6\" = \"candidate_6\"\n\
\"7\" = \"candidate_7\"\n\
\"8\" = \"candidate_8\"\n\
\"9\" = \"candidate_9\"\n\
");
    reveal_strlit("[");
    reveal_strlit("]\n");
    reveal_strlit("alt+");
    reveal_strlit("backspace");
    reveal_strlit("cancel");
    reveal_strlit("caps_lock");
    reveal_strlit("caret_end");
    reveal_strlit("caret_home");
    reveal_strlit("caret_left");
    reveal_strlit("caret_right");
    reveal_strlit("commit");
    reveal_strlit("commit_first");
    reveal_strlit("composing");
    reveal_strlit("convert");
    reveal_strlit("ctrl+");
    reveal_strlit("delete");
    reveal_strlit("delete_back");
    reveal_strlit("delete_forward");
    reveal_strlit("down");
    reveal_strlit("end");
    reveal_strlit("enter");
    reveal_strlit("escape");
    reveal_strlit("f10");
    reveal_strlit("f6");
    reveal_strlit("f7");
    reveal_strlit("f8");
    reveal_strlit("f9");
    reveal_strlit("global");
    reveal_strlit("hankaku_zenkaku");
    reveal_strlit("henkan");
    reveal_strlit("home");
    reveal_strlit("idle");
    reveal_strlit("ime_toggle");
    reveal_strlit("kana_mode");
    reveal_strlit("left");
    reveal_strlit("mode_alnum_toggle");
    reveal_strlit("mode_alnum_width_toggle");
    reveal_strlit("mode_hiragana");
    reveal_strlit("mode_kana_cycle");
    reveal_strlit("mode_katakana");
    reveal_strlit("muhenkan");
    reveal_strlit("page_down");
    reveal_strlit("page_up");
    reveal_strlit("predict_next");
    reveal_strlit("predict_prev");
    reveal_strlit("reconvert");
    reveal_strlit("right");
    reveal_strlit("shift+");
    reveal_strlit("space");
    reveal_strlit("swallow");
    reveal_strlit("tab");
    reveal_strlit("transform_full_alnum");
    reveal_strlit("transform_half_alnum");
    reveal_strlit("transform_half_katakana");
    reveal_strlit("transform_hiragana");
    reveal_strlit("transform_katakana");
    reveal_strlit("undo_commit");
    reveal_strlit("up");
    let t = lemma_start(s);
    let t = section(s, 0, t, Scope::Global);
    let t = key(s, 9, t, KeyCode::Muhenkan, Action::ModeKanaCycle);
    let t = shift_key(s, 40, t, KeyCode::Muhenkan, Action::ModeAlnumWidthToggle);
    let t = key(s, 85, t, KeyCode::KanaMode, Action::ModeHiragana);
    let t = shift_key(s, 115, t, KeyCode::KanaMode, Action::ModeKatakana);
    let t = key(s, 151, t, KeyCode::HankakuZenkaku, Action::ImeToggle);
    let t = key(s, 184, t, KeyCode::CapsLock, Action::ModeAlnumToggle);
    let t = shift_key(s, 218, t, KeyCode::CapsLock, Action::ModeKatakana);
    let t = ctrl_key(s, 254, t, KeyCode::CapsLock, Action::ModeHiragana);
    let t = alt_character(s, 289, t, '`', Action::ImeToggle);
    blank(s, 312, t);
    let t = section(s, 313, t, Scope::In(State::Idle));
    let t = ctrl_key(s, 320, t, KeyCode::Backspace, Action::UndoCommit);
    let t = key(s, 353, t, KeyCode::Henkan, Action::Reconvert);
    blank(s, 376, t);
    let t = section(s, 377, t, Scope::In(State::Composing));
    let t = key(s, 389, t, KeyCode::Space, Action::Convert);
    let t = shift_key(s, 409, t, KeyCode::Space, Action::Convert);
    let t = key(s, 435, t, KeyCode::Enter, Action::Commit);
    let t = shift_key(s, 454, t, KeyCode::Enter, Action::CommitFirst);
    let t = key(s, 485, t, KeyCode::Escape, Action::Cancel);
    let t = key(s, 505, t, KeyCode::Backspace, Action::DeleteBack);
    let t = shift_key(s, 533, t, KeyCode::Backspace, Action::DeleteBack);
    let t = key(s, 567, t, KeyCode::Delete, Action::DeleteForward);
    let t = key(s, 595, t, KeyCode::Tab, Action::PredictNext);
    let t = shift_key(s, 618, t, KeyCode::Tab, Action::PredictPrev);
    let t = key(s, 647, t, KeyCode::Left, Action::CaretLeft);
    let t = key(s, 669, t, KeyCode::Right, Action::CaretRight);
    let t = key(s, 693, t, KeyCode::Up, Action::PredictPrev);
    let t = key(s, 715, t, KeyCode::Down, Action::PredictNext);
    let t = key(s, 739, t, KeyCode::Home, Action::CaretHome);
    let t = key(s, 761, t, KeyCode::End, Action::CaretEnd);
    let t = key(s, 781, t, KeyCode::PageUp, Action::Swallow);
    let t = key(s, 803, t, KeyCode::PageDown, Action::Swallow);
    let t = key(s, 827, t, KeyCode::Henkan, Action::Convert);
    let t = key(s, 848, t, KeyCode::F6, Action::TransformHiragana);
    let t = key(s, 876, t, KeyCode::F7, Action::TransformKatakana);
    let t = key(s, 904, t, KeyCode::F8, Action::TransformHalfKatakana);
    let t = key(s, 937, t, KeyCode::F9, Action::TransformFullAlnum);
    let t = key(s, 967, t, KeyCode::F10, Action::TransformHalfAlnum);
    let t = ctrl_character(s, 998, t, 'i', Action::TransformKatakana);
    let t = ctrl_character(s, 1030, t, 'o', Action::TransformHalfKatakana);
    let t = ctrl_character(s, 1067, t, 'p', Action::TransformFullAlnum);
    let t = ctrl_character(s, 1101, t, 't', Action::TransformHalfAlnum);
    let t = ctrl_character(s, 1135, t, 'u', Action::TransformHiragana);
    t
}

/// The last sections of Microsoft IME: `converting`, `predicting`.
#[verifier::spinoff_prover]
#[verifier::rlimit(100)]
proof fn lemma_ms_ime_last(t: Seq<Part>) -> (after: Seq<Part>)
    requires
        halfway(MS_IME_PRESET@, 1167, t),
        t.len() > 0,
        scope_rank(t.last().scope) == 2,
        total(t) == 40,
    ensures
        halfway(MS_IME_PRESET@, 3136, after),
        after.len() > 0,
        scope_rank(after.last().scope) == 4,
        total(after) == 115,
        MS_IME_PRESET@.len() == 3136,
{
    let s = MS_IME_PRESET@;
    reveal_strlit("\
[global]\n\
\"muhenkan\" = \"mode_kana_cycle\"\n\
\"shift+muhenkan\" = \"mode_alnum_width_toggle\"\n\
\"kana_mode\" = \"mode_hiragana\"\n\
\"shift+kana_mode\" = \"mode_katakana\"\n\
\"hankaku_zenkaku\" = \"ime_toggle\"\n\
\"caps_lock\" = \"mode_alnum_toggle\"\n\
\"shift+caps_lock\" = \"mode_katakana\"\n\
\"ctrl+caps_lock\" = \"mode_hiragana\"\n\
\"alt+`\" = \"ime_toggle\"\n\
\n\
[idle]\n\
\"ctrl+backspace\" = \"undo_commit\"\n\
\"henkan\" = \"reconvert\"\n\
\n\
[composing]\n\
\"space\" = \"convert\"\n\
\"shift+space\" = \"convert\"\n\
\"enter\" = \"commit\"\n\
\"shift+enter\" = \"commit_first\"\n\
\"escape\" = \"cancel\"\n\
\"backspace\" = \"delete_back\"\n\
\"shift+backspace\" = \"delete_back\"\n\
\"delete\" = \"delete_forward\"\n\
\"tab\" = \"predict_next\"\n\
\"shift+tab\" = \"predict_prev\"\n\
\"left\" = \"caret_left\"\n\
\"right\" = \"caret_right\"\n\
\"up\" = \"predict_prev\"\n\
\"down\" = \"predict_next\"\n\
\"home\" = \"caret_home\"\n\
\"end\" = \"caret_end\"\n\
\"page_up\" = \"swallow\"\n\
\"page_down\" = \"swallow\"\n\
\"henkan\" = \"convert\"\n\
\"f6\" = \"transform_hiragana\"\n\
\"f7\" = \"transform_katakana\"\n\
\"f8\" = \"transform_half_katakana\"\n\
\"f9\" = \"transform_full_alnum\"\n\
\"f10\" = \"transform_half_alnum\"\n\
\"ctrl+i\" = \"transform_katakana\"\n\
\"ctrl+o\" = \"transform_half_katakana\"\n\
\"ctrl+p\" = \"transform_full_alnum\"\n\
\"ctrl+t\" = \"transform_half_alnum\"\n\
\"ctrl+u\" = \"transform_hiragana\"\n\
\n\
[converting]\n\
\"space\" = \"candidate_next\"\n\
\"shift+space\" = \"candidate_prev\"\n\
\"enter\" = \"commit\"\n\
\"escape\" = \"cancel\"\n\
\"backspace\" = \"cancel\"\n\
\"shift+backspace\" = \"cancel\"\n\
\"delete\" = \"swallow\"\n\
\"ctrl+delete\" = \"swallow\"\n\
\"tab\" = \"candidate_expand\"\n\
\"shift+tab\" = \"swallow\"\n\
\"left\" = \"segment_prev\"\n\
\"shift+left\" = \"segment_shrink\"\n\
\"right\" = \"segment_next\"\n\
\"shift+right\" = \"segment_grow\"\n\
\"up\" = \"candidate_prev\"\n\
\"down\" = \"candidate_next\"\n\
\"home\" = \"segment_home\"\n\
\"end\" = \"segment_end\"\n\
\"page_up\" = \"candidate_page_up\"\n\
\"page_down\" = \"candidate_page_down\"\n\
\"henkan\" = \"candidate_next\"\n\
\"shift+henkan\" = \"candidate_prev\"\n\
\"f6\" = \"transform_hiragana\"\n\
\"f7\" = \"transform_katakana\"\n\
\"f8\" = \"transform_half_katakana\"\n\
\"f9\" = \"transform_full_alnum\"\n\
\"f10\" = \"transform_half_alnum\"\n\
\"1\" = \"candidate_1\"\n\
\"2\" = \"candidate_2\"\n\
\"3\" = \"candidate_3\"\n\
\"4\" = \"candidate_4\"\n\
\"5\" = \"candidate_5\"\n\
\"6\" = \"candidate_6\"\n\
\"7\" = \"candidate_7\"\n\
\"8\" = \"candidate_8\"\n\
\"9\" = \"candidate_9\"\n\
\"ctrl+i\" = \"transform_katakana\"\n\
\"ctrl+o\" = \"transform_half_katakana\"\n\
\"ctrl+p\" = \"transform_full_alnum\"\n\
\"ctrl+t\" = \"transform_half_alnum\"\n\
\"ctrl+u\" = \"transform_hiragana\"\n\
\n\
[predicting]\n\
\"space\" = \"convert\"\n\
\"shift+space\" = \"convert\"\n\
\"enter\" = \"commit\"\n\
\"shift+enter\" = \"commit_first\"\n\
\"escape\" = \"cancel\"\n\
\"backspace\" = \"delete_back\"\n\
\"shift+backspace\" = \"delete_back\"\n\
\"delete\" = \"delete_forward\"\n\
\"ctrl+delete\" = \"delete_prediction_history\"\n\
\"tab\" = \"predict_next\"\n\
\"shift+tab\" = \"predict_prev\"\n\
\"left\" = \"caret_left\"\n\
\"right\" = \"caret_right\"\n\
\"up\" = \"predict_prev\"\n\
\"down\" = \"predict_next\"\n\
\"home\" = \"caret_home\"\n\
\"end\" = \"caret_end\"\n\
\"page_up\" = \"candidate_page_up\"\n\
\"page_down\" = \"candidate_page_down\"\n\
\"henkan\" = \"convert\"\n\
\"f6\" = \"transform_hiragana\"\n\
\"f7\" = \"transform_katakana\"\n\
\"f8\" = \"transform_half_katakana\"\n\
\"f9\" = \"transform_full_alnum\"\n\
\"f10\" = \"transform_half_alnum\"\n\
\"1\" = \"candidate_1\"\n\
\"2\" = \"candidate_2\"\n\
\"3\" = \"candidate_3\"\n\
\"4\" = \"candidate_4\"\n\
\"5\" = \"candidate_5\"\n\
\"6\" = \"candidate_6\"\n\
\"7\" = \"candidate_7\"\n\
\"8\" = \"candidate_8\"\n\
\"9\" = \"candidate_9\"\n\
");
    reveal_strlit("[");
    reveal_strlit("]\n");
    reveal_strlit("backspace");
    reveal_strlit("cancel");
    reveal_strlit("candidate_1");
    reveal_strlit("candidate_2");
    reveal_strlit("candidate_3");
    reveal_strlit("candidate_4");
    reveal_strlit("candidate_5");
    reveal_strlit("candidate_6");
    reveal_strlit("candidate_7");
    reveal_strlit("candidate_8");
    reveal_strlit("candidate_9");
    reveal_strlit("candidate_expand");
    reveal_strlit("candidate_next");
    reveal_strlit("candidate_page_down");
    reveal_strlit("candidate_page_up");
    reveal_strlit("candidate_prev");
    reveal_strlit("caret_end");
    reveal_strlit("caret_home");
    reveal_strlit("caret_left");
    reveal_strlit("caret_right");
    reveal_strlit("commit");
    reveal_strlit("commit_first");
    reveal_strlit("convert");
    reveal_strlit("converting");
    reveal_strlit("ctrl+");
    reveal_strlit("delete");
    reveal_strlit("delete_back");
    reveal_strlit("delete_forward");
    reveal_strlit("delete_prediction_history");
    reveal_strlit("down");
    reveal_strlit("end");
    reveal_strlit("enter");
    reveal_strlit("escape");
    reveal_strlit("f10");
    reveal_strlit("f6");
    reveal_strlit("f7");
    reveal_strlit("f8");
    reveal_strlit("f9");
    reveal_strlit("henkan");
    reveal_strlit("home");
    reveal_strlit("left");
    reveal_strlit("page_down");
    reveal_strlit("page_up");
    reveal_strlit("predict_next");
    reveal_strlit("predict_prev");
    reveal_strlit("predicting");
    reveal_strlit("right");
    reveal_strlit("segment_end");
    reveal_strlit("segment_grow");
    reveal_strlit("segment_home");
    reveal_strlit("segment_next");
    reveal_strlit("segment_prev");
    reveal_strlit("segment_shrink");
    reveal_strlit("shift+");
    reveal_strlit("space");
    reveal_strlit("swallow");
    reveal_strlit("tab");
    reveal_strlit("transform_full_alnum");
    reveal_strlit("transform_half_alnum");
    reveal_strlit("transform_half_katakana");
    reveal_strlit("transform_hiragana");
    reveal_strlit("transform_katakana");
    reveal_strlit("up");
    blank(s, 1167, t);
    let t = section(s, 1168, t, Scope::In(State::Converting));
    let t = key(s, 1181, t, KeyCode::Space, Action::CandidateNext);
    let t = shift_key(s, 1208, t, KeyCode::Space, Action::CandidatePrev);
    let t = key(s, 1241, t, KeyCode::Enter, Action::Commit);
    let t = key(s, 1260, t, KeyCode::Escape, Action::Cancel);
    let t = key(s, 1280, t, KeyCode::Backspace, Action::Cancel);
    let t = shift_key(s, 1303, t, KeyCode::Backspace, Action::Cancel);
    let t = key(s, 1332, t, KeyCode::Delete, Action::Swallow);
    let t = ctrl_key(s, 1353, t, KeyCode::Delete, Action::Swallow);
    let t = key(s, 1379, t, KeyCode::Tab, Action::CandidateExpand);
    let t = shift_key(s, 1406, t, KeyCode::Tab, Action::Swallow);
    let t = key(s, 1430, t, KeyCode::Left, Action::SegmentPrev);
    let t = shift_key(s, 1454, t, KeyCode::Left, Action::SegmentShrink);
    let t = key(s, 1486, t, KeyCode::Right, Action::SegmentNext);
    let t = shift_key(s, 1511, t, KeyCode::Right, Action::SegmentGrow);
    let t = key(s, 1542, t, KeyCode::Up, Action::CandidatePrev);
    let t = key(s, 1566, t, KeyCode::Down, Action::CandidateNext);
    let t = key(s, 1592, t, KeyCode::Home, Action::SegmentHome);
    let t = key(s, 1616, t, KeyCode::End, Action::SegmentEnd);
    let t = key(s, 1638, t, KeyCode::PageUp, Action::CandidatePageUp);
    let t = key(s, 1670, t, KeyCode::PageDown, Action::CandidatePageDown);
    let t = key(s, 1706, t, KeyCode::Henkan, Action::CandidateNext);
    let t = shift_key(s, 1734, t, KeyCode::Henkan, Action::CandidatePrev);
    let t = key(s, 1768, t, KeyCode::F6, Action::TransformHiragana);
    let t = key(s, 1796, t, KeyCode::F7, Action::TransformKatakana);
    let t = key(s, 1824, t, KeyCode::F8, Action::TransformHalfKatakana);
    let t = key(s, 1857, t, KeyCode::F9, Action::TransformFullAlnum);
    let t = key(s, 1887, t, KeyCode::F10, Action::TransformHalfAlnum);
    let t = character(s, 1918, t, '1', Action::Candidate1);
    let t = character(s, 1938, t, '2', Action::Candidate2);
    let t = character(s, 1958, t, '3', Action::Candidate3);
    let t = character(s, 1978, t, '4', Action::Candidate4);
    let t = character(s, 1998, t, '5', Action::Candidate5);
    let t = character(s, 2018, t, '6', Action::Candidate6);
    let t = character(s, 2038, t, '7', Action::Candidate7);
    let t = character(s, 2058, t, '8', Action::Candidate8);
    let t = character(s, 2078, t, '9', Action::Candidate9);
    let t = ctrl_character(s, 2098, t, 'i', Action::TransformKatakana);
    let t = ctrl_character(s, 2130, t, 'o', Action::TransformHalfKatakana);
    let t = ctrl_character(s, 2167, t, 'p', Action::TransformFullAlnum);
    let t = ctrl_character(s, 2201, t, 't', Action::TransformHalfAlnum);
    let t = ctrl_character(s, 2235, t, 'u', Action::TransformHiragana);
    blank(s, 2267, t);
    let t = section(s, 2268, t, Scope::In(State::Predicting));
    let t = key(s, 2281, t, KeyCode::Space, Action::Convert);
    let t = shift_key(s, 2301, t, KeyCode::Space, Action::Convert);
    let t = key(s, 2327, t, KeyCode::Enter, Action::Commit);
    let t = shift_key(s, 2346, t, KeyCode::Enter, Action::CommitFirst);
    let t = key(s, 2377, t, KeyCode::Escape, Action::Cancel);
    let t = key(s, 2397, t, KeyCode::Backspace, Action::DeleteBack);
    let t = shift_key(s, 2425, t, KeyCode::Backspace, Action::DeleteBack);
    let t = key(s, 2459, t, KeyCode::Delete, Action::DeleteForward);
    let t = ctrl_key(s, 2487, t, KeyCode::Delete, Action::DeletePredictionHistory);
    let t = key(s, 2531, t, KeyCode::Tab, Action::PredictNext);
    let t = shift_key(s, 2554, t, KeyCode::Tab, Action::PredictPrev);
    let t = key(s, 2583, t, KeyCode::Left, Action::CaretLeft);
    let t = key(s, 2605, t, KeyCode::Right, Action::CaretRight);
    let t = key(s, 2629, t, KeyCode::Up, Action::PredictPrev);
    let t = key(s, 2651, t, KeyCode::Down, Action::PredictNext);
    let t = key(s, 2675, t, KeyCode::Home, Action::CaretHome);
    let t = key(s, 2697, t, KeyCode::End, Action::CaretEnd);
    let t = key(s, 2717, t, KeyCode::PageUp, Action::CandidatePageUp);
    let t = key(s, 2749, t, KeyCode::PageDown, Action::CandidatePageDown);
    let t = key(s, 2785, t, KeyCode::Henkan, Action::Convert);
    let t = key(s, 2806, t, KeyCode::F6, Action::TransformHiragana);
    let t = key(s, 2834, t, KeyCode::F7, Action::TransformKatakana);
    let t = key(s, 2862, t, KeyCode::F8, Action::TransformHalfKatakana);
    let t = key(s, 2895, t, KeyCode::F9, Action::TransformFullAlnum);
    let t = key(s, 2925, t, KeyCode::F10, Action::TransformHalfAlnum);
    let t = character(s, 2956, t, '1', Action::Candidate1);
    let t = character(s, 2976, t, '2', Action::Candidate2);
    let t = character(s, 2996, t, '3', Action::Candidate3);
    let t = character(s, 3016, t, '4', Action::Candidate4);
    let t = character(s, 3036, t, '5', Action::Candidate5);
    let t = character(s, 3056, t, '6', Action::Candidate6);
    let t = character(s, 3076, t, '7', Action::Candidate7);
    let t = character(s, 3096, t, '8', Action::Candidate8);
    let t = character(s, 3116, t, '9', Action::Candidate9);
    t
}

/// The keys of Microsoft IME compile.
proof fn lemma_ms_ime()
    ensures
        compiles(MS_IME_PRESET@, 115),
{
    let t = lemma_ms_ime_first();
    let t = lemma_ms_ime_last(t);
    lemma_end(MS_IME_PRESET@, t);
}

/// The first sections of ATOK: `global`, `idle`, `composing`.
#[verifier::spinoff_prover]
#[verifier::rlimit(100)]
proof fn lemma_atok_first() -> (after: Seq<Part>)
    ensures
        halfway(ATOK_PRESET@, 1198, after),
        after.len() > 0,
        scope_rank(after.last().scope) == 2,
        total(after) == 41,
{
    let s = ATOK_PRESET@;
    reveal_strlit("\
[global]\n\
\"shift+muhenkan\" = \"mode_alnum_width_toggle\"\n\
\"kana_mode\" = \"mode_hiragana\"\n\
\"shift+kana_mode\" = \"mode_katakana\"\n\
\"hankaku_zenkaku\" = \"ime_toggle\"\n\
\"caps_lock\" = \"mode_alnum_toggle\"\n\
\"shift+caps_lock\" = \"mode_katakana\"\n\
\"ctrl+caps_lock\" = \"mode_hiragana\"\n\
\"alt+`\" = \"ime_toggle\"\n\
\n\
[idle]\n\
\"ctrl+backspace\" = \"undo_commit\"\n\
\"henkan\" = \"reconvert\"\n\
\"muhenkan\" = \"mode_kana_cycle\"\n\
\n\
[composing]\n\
\"space\" = \"convert\"\n\
\"shift+space\" = \"convert\"\n\
\"enter\" = \"commit\"\n\
\"shift+enter\" = \"commit_first\"\n\
\"escape\" = \"cancel\"\n\
\"backspace\" = \"delete_back\"\n\
\"shift+backspace\" = \"delete_back\"\n\
\"delete\" = \"delete_forward\"\n\
\"tab\" = \"predict_next\"\n\
\"shift+tab\" = \"predict_prev\"\n\
\"left\" = \"caret_left\"\n\
\"right\" = \"caret_right\"\n\
\"up\" = \"predict_prev\"\n\
\"down\" = \"predict_next\"\n\
\"home\" = \"caret_home\"\n\
\"end\" = \"caret_end\"\n\
\"page_up\" = \"swallow\"\n\
\"page_down\" = \"swallow\"\n\
\"henkan\" = \"convert\"\n\
\"muhenkan\" = \"mode_kana_cycle\"\n\
\"f6\" = \"transform_hiragana\"\n\
\"f7\" = \"transform_katakana\"\n\
\"f8\" = \"transform_half_katakana\"\n\
\"f9\" = \"transform_full_alnum\"\n\
\"f10\" = \"transform_half_alnum\"\n\
\"ctrl+i\" = \"transform_katakana\"\n\
\"ctrl+o\" = \"transform_half_katakana\"\n\
\"ctrl+p\" = \"transform_full_alnum\"\n\
\"ctrl+t\" = \"transform_half_alnum\"\n\
\"ctrl+u\" = \"transform_hiragana\"\n\
\n\
[converting]\n\
\"space\" = \"candidate_next\"\n\
\"shift+space\" = \"candidate_prev\"\n\
\"enter\" = \"commit\"\n\
\"escape\" = \"cancel\"\n\
\"backspace\" = \"cancel\"\n\
\"shift+backspace\" = \"cancel\"\n\
\"delete\" = \"swallow\"\n\
\"ctrl+delete\" = \"swallow\"\n\
\"tab\" = \"candidate_next\"\n\
\"shift+tab\" = \"candidate_prev\"\n\
\"left\" = \"segment_shrink\"\n\
\"shift+left\" = \"segment_prev\"\n\
\"right\" = \"segment_grow\"\n\
\"shift+right\" = \"segment_next\"\n\
\"up\" = \"candidate_prev\"\n\
\"down\" = \"candidate_next\"\n\
\"home\" = \"segment_home\"\n\
\"end\" = \"segment_end\"\n\
\"page_up\" = \"candidate_page_up\"\n\
\"page_down\" = \"candidate_page_down\"\n\
\"henkan\" = \"candidate_next\"\n\
\"shift+henkan\" = \"candidate_prev\"\n\
\"muhenkan\" = \"mode_kana_cycle\"\n\
\"f6\" = \"transform_hiragana\"\n\
\"f7\" = \"transform_katakana\"\n\
\"f8\" = \"transform_half_katakana\"\n\
\"f9\" = \"transform_full_alnum\"\n\
\"f10\" = \"transform_half_alnum\"\n\
\"1\" = \"candidate_1\"\n\
\"2\" = \"candidate_2\"\n\
\"3\" = \"candidate_3\"\n\
\"4\" = \"candidate_4\"\n\
\"5\" = \"candidate_5\"\n\
\"6\" = \"candidate_6\"\n\
\"7\" = \"candidate_7\"\n\
\"8\" = \"candidate_8\"\n\
\"9\" = \"candidate_9\"\n\
\"ctrl+i\" = \"transform_katakana\"\n\
\"ctrl+o\" = \"transform_half_katakana\"\n\
\"ctrl+p\" = \"transform_full_alnum\"\n\
\"ctrl+t\" = \"transform_half_alnum\"\n\
\"ctrl+u\" = \"transform_hiragana\"\n\
\n\
[predicting]\n\
\"space\" = \"convert\"\n\
\"shift+space\" = \"convert\"\n\
\"enter\" = \"commit\"\n\
\"shift+enter\" = \"commit_first\"\n\
\"escape\" = \"cancel\"\n\
\"backspace\" = \"delete_back\"\n\
\"shift+backspace\" = \"delete_back\"\n\
\"delete\" = \"delete_forward\"\n\
\"ctrl+delete\" = \"delete_prediction_history\"\n\
\"tab\" = \"predict_next\"\n\
\"shift+tab\" = \"predict_prev\"\n\
\"left\" = \"caret_left\"\n\
\"right\" = \"caret_right\"\n\
\"up\" = \"predict_prev\"\n\
\"down\" = \"predict_next\"\n\
\"home\" = \"caret_home\"\n\
\"end\" = \"caret_end\"\n\
\"page_up\" = \"candidate_page_up\"\n\
\"page_down\" = \"candidate_page_down\"\n\
\"henkan\" = \"convert\"\n\
\"muhenkan\" = \"mode_kana_cycle\"\n\
\"f6\" = \"transform_hiragana\"\n\
\"f7\" = \"transform_katakana\"\n\
\"f8\" = \"transform_half_katakana\"\n\
\"f9\" = \"transform_full_alnum\"\n\
\"f10\" = \"transform_half_alnum\"\n\
\"1\" = \"candidate_1\"\n\
\"2\" = \"candidate_2\"\n\
\"3\" = \"candidate_3\"\n\
\"4\" = \"candidate_4\"\n\
\"5\" = \"candidate_5\"\n\
\"6\" = \"candidate_6\"\n\
\"7\" = \"candidate_7\"\n\
\"8\" = \"candidate_8\"\n\
\"9\" = \"candidate_9\"\n\
");
    reveal_strlit("[");
    reveal_strlit("]\n");
    reveal_strlit("alt+");
    reveal_strlit("backspace");
    reveal_strlit("cancel");
    reveal_strlit("caps_lock");
    reveal_strlit("caret_end");
    reveal_strlit("caret_home");
    reveal_strlit("caret_left");
    reveal_strlit("caret_right");
    reveal_strlit("commit");
    reveal_strlit("commit_first");
    reveal_strlit("composing");
    reveal_strlit("convert");
    reveal_strlit("ctrl+");
    reveal_strlit("delete");
    reveal_strlit("delete_back");
    reveal_strlit("delete_forward");
    reveal_strlit("down");
    reveal_strlit("end");
    reveal_strlit("enter");
    reveal_strlit("escape");
    reveal_strlit("f10");
    reveal_strlit("f6");
    reveal_strlit("f7");
    reveal_strlit("f8");
    reveal_strlit("f9");
    reveal_strlit("global");
    reveal_strlit("hankaku_zenkaku");
    reveal_strlit("henkan");
    reveal_strlit("home");
    reveal_strlit("idle");
    reveal_strlit("ime_toggle");
    reveal_strlit("kana_mode");
    reveal_strlit("left");
    reveal_strlit("mode_alnum_toggle");
    reveal_strlit("mode_alnum_width_toggle");
    reveal_strlit("mode_hiragana");
    reveal_strlit("mode_kana_cycle");
    reveal_strlit("mode_katakana");
    reveal_strlit("muhenkan");
    reveal_strlit("page_down");
    reveal_strlit("page_up");
    reveal_strlit("predict_next");
    reveal_strlit("predict_prev");
    reveal_strlit("reconvert");
    reveal_strlit("right");
    reveal_strlit("shift+");
    reveal_strlit("space");
    reveal_strlit("swallow");
    reveal_strlit("tab");
    reveal_strlit("transform_full_alnum");
    reveal_strlit("transform_half_alnum");
    reveal_strlit("transform_half_katakana");
    reveal_strlit("transform_hiragana");
    reveal_strlit("transform_katakana");
    reveal_strlit("undo_commit");
    reveal_strlit("up");
    let t = lemma_start(s);
    let t = section(s, 0, t, Scope::Global);
    let t = shift_key(s, 9, t, KeyCode::Muhenkan, Action::ModeAlnumWidthToggle);
    let t = key(s, 54, t, KeyCode::KanaMode, Action::ModeHiragana);
    let t = shift_key(s, 84, t, KeyCode::KanaMode, Action::ModeKatakana);
    let t = key(s, 120, t, KeyCode::HankakuZenkaku, Action::ImeToggle);
    let t = key(s, 153, t, KeyCode::CapsLock, Action::ModeAlnumToggle);
    let t = shift_key(s, 187, t, KeyCode::CapsLock, Action::ModeKatakana);
    let t = ctrl_key(s, 223, t, KeyCode::CapsLock, Action::ModeHiragana);
    let t = alt_character(s, 258, t, '`', Action::ImeToggle);
    blank(s, 281, t);
    let t = section(s, 282, t, Scope::In(State::Idle));
    let t = ctrl_key(s, 289, t, KeyCode::Backspace, Action::UndoCommit);
    let t = key(s, 322, t, KeyCode::Henkan, Action::Reconvert);
    let t = key(s, 345, t, KeyCode::Muhenkan, Action::ModeKanaCycle);
    blank(s, 376, t);
    let t = section(s, 377, t, Scope::In(State::Composing));
    let t = key(s, 389, t, KeyCode::Space, Action::Convert);
    let t = shift_key(s, 409, t, KeyCode::Space, Action::Convert);
    let t = key(s, 435, t, KeyCode::Enter, Action::Commit);
    let t = shift_key(s, 454, t, KeyCode::Enter, Action::CommitFirst);
    let t = key(s, 485, t, KeyCode::Escape, Action::Cancel);
    let t = key(s, 505, t, KeyCode::Backspace, Action::DeleteBack);
    let t = shift_key(s, 533, t, KeyCode::Backspace, Action::DeleteBack);
    let t = key(s, 567, t, KeyCode::Delete, Action::DeleteForward);
    let t = key(s, 595, t, KeyCode::Tab, Action::PredictNext);
    let t = shift_key(s, 618, t, KeyCode::Tab, Action::PredictPrev);
    let t = key(s, 647, t, KeyCode::Left, Action::CaretLeft);
    let t = key(s, 669, t, KeyCode::Right, Action::CaretRight);
    let t = key(s, 693, t, KeyCode::Up, Action::PredictPrev);
    let t = key(s, 715, t, KeyCode::Down, Action::PredictNext);
    let t = key(s, 739, t, KeyCode::Home, Action::CaretHome);
    let t = key(s, 761, t, KeyCode::End, Action::CaretEnd);
    let t = key(s, 781, t, KeyCode::PageUp, Action::Swallow);
    let t = key(s, 803, t, KeyCode::PageDown, Action::Swallow);
    let t = key(s, 827, t, KeyCode::Henkan, Action::Convert);
    let t = key(s, 848, t, KeyCode::Muhenkan, Action::ModeKanaCycle);
    let t = key(s, 879, t, KeyCode::F6, Action::TransformHiragana);
    let t = key(s, 907, t, KeyCode::F7, Action::TransformKatakana);
    let t = key(s, 935, t, KeyCode::F8, Action::TransformHalfKatakana);
    let t = key(s, 968, t, KeyCode::F9, Action::TransformFullAlnum);
    let t = key(s, 998, t, KeyCode::F10, Action::TransformHalfAlnum);
    let t = ctrl_character(s, 1029, t, 'i', Action::TransformKatakana);
    let t = ctrl_character(s, 1061, t, 'o', Action::TransformHalfKatakana);
    let t = ctrl_character(s, 1098, t, 'p', Action::TransformFullAlnum);
    let t = ctrl_character(s, 1132, t, 't', Action::TransformHalfAlnum);
    let t = ctrl_character(s, 1166, t, 'u', Action::TransformHiragana);
    t
}

/// The last sections of ATOK: `converting`, `predicting`.
#[verifier::spinoff_prover]
#[verifier::rlimit(100)]
proof fn lemma_atok_last(t: Seq<Part>) -> (after: Seq<Part>)
    requires
        halfway(ATOK_PRESET@, 1198, t),
        t.len() > 0,
        scope_rank(t.last().scope) == 2,
        total(t) == 41,
    ensures
        halfway(ATOK_PRESET@, 3234, after),
        after.len() > 0,
        scope_rank(after.last().scope) == 4,
        total(after) == 118,
        ATOK_PRESET@.len() == 3234,
{
    let s = ATOK_PRESET@;
    reveal_strlit("\
[global]\n\
\"shift+muhenkan\" = \"mode_alnum_width_toggle\"\n\
\"kana_mode\" = \"mode_hiragana\"\n\
\"shift+kana_mode\" = \"mode_katakana\"\n\
\"hankaku_zenkaku\" = \"ime_toggle\"\n\
\"caps_lock\" = \"mode_alnum_toggle\"\n\
\"shift+caps_lock\" = \"mode_katakana\"\n\
\"ctrl+caps_lock\" = \"mode_hiragana\"\n\
\"alt+`\" = \"ime_toggle\"\n\
\n\
[idle]\n\
\"ctrl+backspace\" = \"undo_commit\"\n\
\"henkan\" = \"reconvert\"\n\
\"muhenkan\" = \"mode_kana_cycle\"\n\
\n\
[composing]\n\
\"space\" = \"convert\"\n\
\"shift+space\" = \"convert\"\n\
\"enter\" = \"commit\"\n\
\"shift+enter\" = \"commit_first\"\n\
\"escape\" = \"cancel\"\n\
\"backspace\" = \"delete_back\"\n\
\"shift+backspace\" = \"delete_back\"\n\
\"delete\" = \"delete_forward\"\n\
\"tab\" = \"predict_next\"\n\
\"shift+tab\" = \"predict_prev\"\n\
\"left\" = \"caret_left\"\n\
\"right\" = \"caret_right\"\n\
\"up\" = \"predict_prev\"\n\
\"down\" = \"predict_next\"\n\
\"home\" = \"caret_home\"\n\
\"end\" = \"caret_end\"\n\
\"page_up\" = \"swallow\"\n\
\"page_down\" = \"swallow\"\n\
\"henkan\" = \"convert\"\n\
\"muhenkan\" = \"mode_kana_cycle\"\n\
\"f6\" = \"transform_hiragana\"\n\
\"f7\" = \"transform_katakana\"\n\
\"f8\" = \"transform_half_katakana\"\n\
\"f9\" = \"transform_full_alnum\"\n\
\"f10\" = \"transform_half_alnum\"\n\
\"ctrl+i\" = \"transform_katakana\"\n\
\"ctrl+o\" = \"transform_half_katakana\"\n\
\"ctrl+p\" = \"transform_full_alnum\"\n\
\"ctrl+t\" = \"transform_half_alnum\"\n\
\"ctrl+u\" = \"transform_hiragana\"\n\
\n\
[converting]\n\
\"space\" = \"candidate_next\"\n\
\"shift+space\" = \"candidate_prev\"\n\
\"enter\" = \"commit\"\n\
\"escape\" = \"cancel\"\n\
\"backspace\" = \"cancel\"\n\
\"shift+backspace\" = \"cancel\"\n\
\"delete\" = \"swallow\"\n\
\"ctrl+delete\" = \"swallow\"\n\
\"tab\" = \"candidate_next\"\n\
\"shift+tab\" = \"candidate_prev\"\n\
\"left\" = \"segment_shrink\"\n\
\"shift+left\" = \"segment_prev\"\n\
\"right\" = \"segment_grow\"\n\
\"shift+right\" = \"segment_next\"\n\
\"up\" = \"candidate_prev\"\n\
\"down\" = \"candidate_next\"\n\
\"home\" = \"segment_home\"\n\
\"end\" = \"segment_end\"\n\
\"page_up\" = \"candidate_page_up\"\n\
\"page_down\" = \"candidate_page_down\"\n\
\"henkan\" = \"candidate_next\"\n\
\"shift+henkan\" = \"candidate_prev\"\n\
\"muhenkan\" = \"mode_kana_cycle\"\n\
\"f6\" = \"transform_hiragana\"\n\
\"f7\" = \"transform_katakana\"\n\
\"f8\" = \"transform_half_katakana\"\n\
\"f9\" = \"transform_full_alnum\"\n\
\"f10\" = \"transform_half_alnum\"\n\
\"1\" = \"candidate_1\"\n\
\"2\" = \"candidate_2\"\n\
\"3\" = \"candidate_3\"\n\
\"4\" = \"candidate_4\"\n\
\"5\" = \"candidate_5\"\n\
\"6\" = \"candidate_6\"\n\
\"7\" = \"candidate_7\"\n\
\"8\" = \"candidate_8\"\n\
\"9\" = \"candidate_9\"\n\
\"ctrl+i\" = \"transform_katakana\"\n\
\"ctrl+o\" = \"transform_half_katakana\"\n\
\"ctrl+p\" = \"transform_full_alnum\"\n\
\"ctrl+t\" = \"transform_half_alnum\"\n\
\"ctrl+u\" = \"transform_hiragana\"\n\
\n\
[predicting]\n\
\"space\" = \"convert\"\n\
\"shift+space\" = \"convert\"\n\
\"enter\" = \"commit\"\n\
\"shift+enter\" = \"commit_first\"\n\
\"escape\" = \"cancel\"\n\
\"backspace\" = \"delete_back\"\n\
\"shift+backspace\" = \"delete_back\"\n\
\"delete\" = \"delete_forward\"\n\
\"ctrl+delete\" = \"delete_prediction_history\"\n\
\"tab\" = \"predict_next\"\n\
\"shift+tab\" = \"predict_prev\"\n\
\"left\" = \"caret_left\"\n\
\"right\" = \"caret_right\"\n\
\"up\" = \"predict_prev\"\n\
\"down\" = \"predict_next\"\n\
\"home\" = \"caret_home\"\n\
\"end\" = \"caret_end\"\n\
\"page_up\" = \"candidate_page_up\"\n\
\"page_down\" = \"candidate_page_down\"\n\
\"henkan\" = \"convert\"\n\
\"muhenkan\" = \"mode_kana_cycle\"\n\
\"f6\" = \"transform_hiragana\"\n\
\"f7\" = \"transform_katakana\"\n\
\"f8\" = \"transform_half_katakana\"\n\
\"f9\" = \"transform_full_alnum\"\n\
\"f10\" = \"transform_half_alnum\"\n\
\"1\" = \"candidate_1\"\n\
\"2\" = \"candidate_2\"\n\
\"3\" = \"candidate_3\"\n\
\"4\" = \"candidate_4\"\n\
\"5\" = \"candidate_5\"\n\
\"6\" = \"candidate_6\"\n\
\"7\" = \"candidate_7\"\n\
\"8\" = \"candidate_8\"\n\
\"9\" = \"candidate_9\"\n\
");
    reveal_strlit("[");
    reveal_strlit("]\n");
    reveal_strlit("backspace");
    reveal_strlit("cancel");
    reveal_strlit("candidate_1");
    reveal_strlit("candidate_2");
    reveal_strlit("candidate_3");
    reveal_strlit("candidate_4");
    reveal_strlit("candidate_5");
    reveal_strlit("candidate_6");
    reveal_strlit("candidate_7");
    reveal_strlit("candidate_8");
    reveal_strlit("candidate_9");
    reveal_strlit("candidate_next");
    reveal_strlit("candidate_page_down");
    reveal_strlit("candidate_page_up");
    reveal_strlit("candidate_prev");
    reveal_strlit("caret_end");
    reveal_strlit("caret_home");
    reveal_strlit("caret_left");
    reveal_strlit("caret_right");
    reveal_strlit("commit");
    reveal_strlit("commit_first");
    reveal_strlit("convert");
    reveal_strlit("converting");
    reveal_strlit("ctrl+");
    reveal_strlit("delete");
    reveal_strlit("delete_back");
    reveal_strlit("delete_forward");
    reveal_strlit("delete_prediction_history");
    reveal_strlit("down");
    reveal_strlit("end");
    reveal_strlit("enter");
    reveal_strlit("escape");
    reveal_strlit("f10");
    reveal_strlit("f6");
    reveal_strlit("f7");
    reveal_strlit("f8");
    reveal_strlit("f9");
    reveal_strlit("henkan");
    reveal_strlit("home");
    reveal_strlit("left");
    reveal_strlit("mode_kana_cycle");
    reveal_strlit("muhenkan");
    reveal_strlit("page_down");
    reveal_strlit("page_up");
    reveal_strlit("predict_next");
    reveal_strlit("predict_prev");
    reveal_strlit("predicting");
    reveal_strlit("right");
    reveal_strlit("segment_end");
    reveal_strlit("segment_grow");
    reveal_strlit("segment_home");
    reveal_strlit("segment_next");
    reveal_strlit("segment_prev");
    reveal_strlit("segment_shrink");
    reveal_strlit("shift+");
    reveal_strlit("space");
    reveal_strlit("swallow");
    reveal_strlit("tab");
    reveal_strlit("transform_full_alnum");
    reveal_strlit("transform_half_alnum");
    reveal_strlit("transform_half_katakana");
    reveal_strlit("transform_hiragana");
    reveal_strlit("transform_katakana");
    reveal_strlit("up");
    blank(s, 1198, t);
    let t = section(s, 1199, t, Scope::In(State::Converting));
    let t = key(s, 1212, t, KeyCode::Space, Action::CandidateNext);
    let t = shift_key(s, 1239, t, KeyCode::Space, Action::CandidatePrev);
    let t = key(s, 1272, t, KeyCode::Enter, Action::Commit);
    let t = key(s, 1291, t, KeyCode::Escape, Action::Cancel);
    let t = key(s, 1311, t, KeyCode::Backspace, Action::Cancel);
    let t = shift_key(s, 1334, t, KeyCode::Backspace, Action::Cancel);
    let t = key(s, 1363, t, KeyCode::Delete, Action::Swallow);
    let t = ctrl_key(s, 1384, t, KeyCode::Delete, Action::Swallow);
    let t = key(s, 1410, t, KeyCode::Tab, Action::CandidateNext);
    let t = shift_key(s, 1435, t, KeyCode::Tab, Action::CandidatePrev);
    let t = key(s, 1466, t, KeyCode::Left, Action::SegmentShrink);
    let t = shift_key(s, 1492, t, KeyCode::Left, Action::SegmentPrev);
    let t = key(s, 1522, t, KeyCode::Right, Action::SegmentGrow);
    let t = shift_key(s, 1547, t, KeyCode::Right, Action::SegmentNext);
    let t = key(s, 1578, t, KeyCode::Up, Action::CandidatePrev);
    let t = key(s, 1602, t, KeyCode::Down, Action::CandidateNext);
    let t = key(s, 1628, t, KeyCode::Home, Action::SegmentHome);
    let t = key(s, 1652, t, KeyCode::End, Action::SegmentEnd);
    let t = key(s, 1674, t, KeyCode::PageUp, Action::CandidatePageUp);
    let t = key(s, 1706, t, KeyCode::PageDown, Action::CandidatePageDown);
    let t = key(s, 1742, t, KeyCode::Henkan, Action::CandidateNext);
    let t = shift_key(s, 1770, t, KeyCode::Henkan, Action::CandidatePrev);
    let t = key(s, 1804, t, KeyCode::Muhenkan, Action::ModeKanaCycle);
    let t = key(s, 1835, t, KeyCode::F6, Action::TransformHiragana);
    let t = key(s, 1863, t, KeyCode::F7, Action::TransformKatakana);
    let t = key(s, 1891, t, KeyCode::F8, Action::TransformHalfKatakana);
    let t = key(s, 1924, t, KeyCode::F9, Action::TransformFullAlnum);
    let t = key(s, 1954, t, KeyCode::F10, Action::TransformHalfAlnum);
    let t = character(s, 1985, t, '1', Action::Candidate1);
    let t = character(s, 2005, t, '2', Action::Candidate2);
    let t = character(s, 2025, t, '3', Action::Candidate3);
    let t = character(s, 2045, t, '4', Action::Candidate4);
    let t = character(s, 2065, t, '5', Action::Candidate5);
    let t = character(s, 2085, t, '6', Action::Candidate6);
    let t = character(s, 2105, t, '7', Action::Candidate7);
    let t = character(s, 2125, t, '8', Action::Candidate8);
    let t = character(s, 2145, t, '9', Action::Candidate9);
    let t = ctrl_character(s, 2165, t, 'i', Action::TransformKatakana);
    let t = ctrl_character(s, 2197, t, 'o', Action::TransformHalfKatakana);
    let t = ctrl_character(s, 2234, t, 'p', Action::TransformFullAlnum);
    let t = ctrl_character(s, 2268, t, 't', Action::TransformHalfAlnum);
    let t = ctrl_character(s, 2302, t, 'u', Action::TransformHiragana);
    blank(s, 2334, t);
    let t = section(s, 2335, t, Scope::In(State::Predicting));
    let t = key(s, 2348, t, KeyCode::Space, Action::Convert);
    let t = shift_key(s, 2368, t, KeyCode::Space, Action::Convert);
    let t = key(s, 2394, t, KeyCode::Enter, Action::Commit);
    let t = shift_key(s, 2413, t, KeyCode::Enter, Action::CommitFirst);
    let t = key(s, 2444, t, KeyCode::Escape, Action::Cancel);
    let t = key(s, 2464, t, KeyCode::Backspace, Action::DeleteBack);
    let t = shift_key(s, 2492, t, KeyCode::Backspace, Action::DeleteBack);
    let t = key(s, 2526, t, KeyCode::Delete, Action::DeleteForward);
    let t = ctrl_key(s, 2554, t, KeyCode::Delete, Action::DeletePredictionHistory);
    let t = key(s, 2598, t, KeyCode::Tab, Action::PredictNext);
    let t = shift_key(s, 2621, t, KeyCode::Tab, Action::PredictPrev);
    let t = key(s, 2650, t, KeyCode::Left, Action::CaretLeft);
    let t = key(s, 2672, t, KeyCode::Right, Action::CaretRight);
    let t = key(s, 2696, t, KeyCode::Up, Action::PredictPrev);
    let t = key(s, 2718, t, KeyCode::Down, Action::PredictNext);
    let t = key(s, 2742, t, KeyCode::Home, Action::CaretHome);
    let t = key(s, 2764, t, KeyCode::End, Action::CaretEnd);
    let t = key(s, 2784, t, KeyCode::PageUp, Action::CandidatePageUp);
    let t = key(s, 2816, t, KeyCode::PageDown, Action::CandidatePageDown);
    let t = key(s, 2852, t, KeyCode::Henkan, Action::Convert);
    let t = key(s, 2873, t, KeyCode::Muhenkan, Action::ModeKanaCycle);
    let t = key(s, 2904, t, KeyCode::F6, Action::TransformHiragana);
    let t = key(s, 2932, t, KeyCode::F7, Action::TransformKatakana);
    let t = key(s, 2960, t, KeyCode::F8, Action::TransformHalfKatakana);
    let t = key(s, 2993, t, KeyCode::F9, Action::TransformFullAlnum);
    let t = key(s, 3023, t, KeyCode::F10, Action::TransformHalfAlnum);
    let t = character(s, 3054, t, '1', Action::Candidate1);
    let t = character(s, 3074, t, '2', Action::Candidate2);
    let t = character(s, 3094, t, '3', Action::Candidate3);
    let t = character(s, 3114, t, '4', Action::Candidate4);
    let t = character(s, 3134, t, '5', Action::Candidate5);
    let t = character(s, 3154, t, '6', Action::Candidate6);
    let t = character(s, 3174, t, '7', Action::Candidate7);
    let t = character(s, 3194, t, '8', Action::Candidate8);
    let t = character(s, 3214, t, '9', Action::Candidate9);
    t
}

/// The keys of ATOK compile.
proof fn lemma_atok()
    ensures
        compiles(ATOK_PRESET@, 118),
{
    let t = lemma_atok_first();
    let t = lemma_atok_last(t);
    lemma_end(ATOK_PRESET@, t);
}

/// Every shipped key map compiles, and binds something.
pub proof fn presets_compile(preset: Preset, r: Result<KeyMap, KeyMapError>)
    requires
        bindings::source_compiles_to(preset.source_of(), r),
    ensures
        r matches Ok(map) && map.wf() && map@.dom().finite() && map@.dom().len() > 0,
{
    match preset {
        Preset::MsIme => {
            lemma_ms_ime();
        },
        Preset::Atok => {
            lemma_atok();
        },
    }
}

/// The shipped key maps differ.
pub proof fn presets_differ(
    a: Preset,
    b: Preset,
    x: Result<KeyMap, KeyMapError>,
    y: Result<KeyMap, KeyMapError>,
)
    requires
        a != b,
        bindings::source_compiles_to(a.source_of(), x),
        bindings::source_compiles_to(b.source_of(), y),
    ensures
        x matches Ok(m) && (y matches Ok(n) && m@ != n@),
        a.source_of() != b.source_of(),
{
    lemma_ms_ime();
    lemma_atok();
}

} // verus!
