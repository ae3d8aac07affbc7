//! What a document makes of a table.

use super::table;
use super::table::{Mapping, Table, TableError, TableErrorKind};
use crate::config;
use crate::config::{EntryView, SectionView, ValueView};
use vstd::prelude::*;
#[allow(unused_imports)]
use vstd::utf8::*;

verus! {

/// Whether a text is made of ASCII characters without capital letters.
pub open spec fn typeable(text: Seq<char>) -> bool {
    forall|i: int|
        0 <= i < text.len() ==> (#[trigger] text[i]) as int <= 127 && !('A' <= text[i] && text[i]
            <= 'Z')
}

/// What the value of an entry says that is written, and what is carried on: a text alone
/// carries nothing on.
pub open spec fn parts(value: ValueView) -> Option<(Seq<char>, Seq<char>)> {
    match value {
        ValueView::Text(output) => Some((output, Seq::empty())),
        ValueView::List(items) => {
            if items.len() == 1 {
                Some((items[0], Seq::empty()))
            } else if items.len() == 2 {
                Some((items[0], items[1]))
            } else {
                None
            }
        },
    }
}

/// Whether an entry can stand in a table: its sequence can be typed and has one to eight
/// characters, what it carries on can be typed and is shorter, and it says something.
pub open spec fn acceptable(entry: EntryView) -> bool {
    &&& typeable(entry.key)
    &&& 1 <= entry.key.len() <= 8
    &&& parts(entry.value) matches Some((output, carry)) && typeable(carry) && carry.len()
        < entry.key.len() && (output.len() > 0 || carry.len() > 0)
}

proof fn lemma_ascii(c: char)
    ensures
        c as int <= 127 ==> '\0' <= c && c <= '\u{7f}',
{
}

proof fn lemma_typeable(text: Seq<char>)
    ensures
        typeable(text) == (is_ascii_chars(text) && !table::has_upper(text)),
        !is_ascii_chars(text) ==> exists|i: int|
            0 <= i < text.len() && (#[trigger] text[i]) as int > 127,
{
    if typeable(text) {
        assert(is_ascii_chars(text)) by {
            assert forall|i: int| 0 <= i < text.len() implies '\0' <= #[trigger] text[i]
                <= '\u{7f}' by {
                lemma_ascii(text[i]);
            }
        }
    }
    if is_ascii_chars(text) && !table::has_upper(text) {
        assert forall|i: int| 0 <= i < text.len() implies (#[trigger] text[i]) as int <= 127 && !(
        'A' <= text[i] && text[i] <= 'Z') by {}
    }
    if !is_ascii_chars(text) {
        if forall|i: int| 0 <= i < text.len() ==> (#[trigger] text[i]) as int <= 127 {
            assert forall|i: int| 0 <= i < text.len() implies '\0' <= #[trigger] text[i]
                <= '\u{7f}' by {
                lemma_ascii(text[i]);
            }
        }
    }
}

/// An entry that can stand in a table maps its sequence to what its value says is written
/// and carried on. Every other entry is refused.
pub proof fn entries_map_what_they_say(entry: EntryView)
    ensures
        match table::compiled(entry.key, entry.value) {
            Ok(m) => acceptable(entry) && m.sequence == entry.key && parts(entry.value) == Some(
                (m.output, m.carry),
            ),
            Err(_) => !acceptable(entry),
        },
{
    lemma_typeable(entry.key);
    if let Some((output, carry)) = parts(entry.value) {
        lemma_typeable(carry);
    }
}

/// An entry is refused for what is wrong with it.
pub proof fn faults_are_what_they_say(entry: EntryView)
    ensures
        table::compiled(entry.key, entry.value) matches Err(kind) ==> match kind {
            TableErrorKind::NonAsciiSequence => exists|i: int|
                0 <= i < entry.key.len() && (#[trigger] entry.key[i]) as int > 127,
            TableErrorKind::UppercaseSequence => exists|i: int|
                0 <= i < entry.key.len() && 'A' <= (#[trigger] entry.key[i]) && entry.key[i]
                    <= 'Z',
            TableErrorKind::SequenceTooLong => entry.key.len() == 0 || entry.key.len() > 8,
            TableErrorKind::MalformedValue => parts(entry.value) is None,
            TableErrorKind::EmptyEntry => parts(entry.value) matches Some((output, carry))
                && output.len() == 0 && carry.len() == 0,
            TableErrorKind::NonAsciiCarry => parts(entry.value) matches Some((output, carry)) && (
            exists|i: int| 0 <= i < carry.len() && (#[trigger] carry[i]) as int > 127),
            TableErrorKind::UppercaseCarry => parts(entry.value) matches Some((output, carry)) && (
            exists|i: int| 0 <= i < carry.len() && 'A' <= (#[trigger] carry[i]) && carry[i] <= 'Z'),
            TableErrorKind::CarryNotShorter => parts(entry.value) matches Some((output, carry))
                && carry.len() >= entry.key.len(),
            _ => false,
        },
{
    lemma_typeable(entry.key);
    if let Some((output, carry)) = parts(entry.value) {
        lemma_typeable(carry);
    }
}

proof fn lemma_compiled_at(entries: Seq<EntryView>, n: int, i: int)
    requires
        0 <= i < n <= entries.len(),
    ensures
        table::compiled_all(entries, n) matches Ok(all) ==> all.len() == n && table::compiled(
            entries[i].key,
            entries[i].value,
        ) == Ok::<Mapping, TableErrorKind>(all[i]),
    decreases n,
{
    if i < n - 1 {
        lemma_compiled_at(entries, n - 1, i);
    } else if n > 1 {
        lemma_compiled_at(entries, n - 1, 0);
    }
}

/// A table holds the mapping of every entry of the section `kana`, and no other.
pub proof fn tables_hold_what_their_section_says(
    document: Seq<SectionView>,
    at: int,
    compiled: Table,
)
    requires
        config::well_formed(document),
        0 <= at < document.len(),
        document[at].name == "kana"@,
        table::compiles_to(document, Ok::<Table, TableError>(compiled)),
    ensures
        forall|i: int|
            0 <= i < document[at].entries.len() ==> is_mapped(
                compiled@,
                #[trigger] document[at].entries[i],
            ),
        forall|k: int|
            0 <= k < compiled@.len() ==> comes_from(document[at].entries, #[trigger] compiled@[k]),
{
    config::lemma_find_section(document, "kana"@, 0);
    let entries = document[at].entries;
    let n = entries.len() as int;
    assert(config::section_entries(document, super::TABLE_SECTION@) == Some(entries));
    let all = table::compiled_all(entries, n)->Ok_0;
    compiled@.to_multiset_ensures();
    all.to_multiset_ensures();
    assert forall|i: int| 0 <= i < n implies is_mapped(compiled@, #[trigger] entries[i]) by {
        lemma_compiled_at(entries, n, i);
        entries_map_what_they_say(entries[i]);
        assert(all.contains(all[i]));
        assert(compiled@.to_multiset().count(all[i]) > 0);
        assert(compiled@.contains(all[i]));
        let k = compiled@.index_of(all[i]);
        assert(is_mapping_of(compiled@[k], entries[i]));
    }
    assert forall|k: int| 0 <= k < compiled@.len() implies comes_from(
        entries,
        #[trigger] compiled@[k],
    ) by {
        assert(compiled@.contains(compiled@[k]));
        assert(all.to_multiset().count(compiled@[k]) > 0);
        assert(all.contains(compiled@[k]));
        let i = all.index_of(compiled@[k]);
        if n > 0 {
            lemma_compiled_at(entries, n, 0);
        }
        lemma_compiled_at(entries, n, i);
        entries_map_what_they_say(entries[i]);
        assert(is_mapping_of(compiled@[k], entries[i]));
    }
}

/// Whether a mapping is what an entry says.
pub open spec fn is_mapping_of(m: Mapping, entry: EntryView) -> bool {
    m.sequence == entry.key && parts(entry.value) == Some((m.output, m.carry))
}

/// Whether a table has the mapping of an entry.
pub open spec fn is_mapped(t: Seq<Mapping>, entry: EntryView) -> bool {
    exists|k: int| 0 <= k < t.len() && is_mapping_of(#[trigger] t[k], entry)
}

/// Whether a mapping is what one of several entries says.
pub open spec fn comes_from(entries: Seq<EntryView>, m: Mapping) -> bool {
    exists|i: int| 0 <= i < entries.len() && is_mapping_of(m, #[trigger] entries[i])
}

} // verus!
