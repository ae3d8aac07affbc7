//! Building a table, the faults of a malformed one, and the two lookups that
//! matching asks of it.

use super::shipped_laws;
use super::{DEFAULT_TABLE, MAX_SEQUENCE, TABLE_SECTION};
use crate::config;
use crate::config::{Document, ParseError, Value};
use crate::strings;
use vstd::prelude::*;
#[allow(unused_imports)]
use vstd::utf8::*;

verus! {

/// One compiled mapping.
#[derive(Debug, PartialEq, Eq)]
pub struct CompiledEntry {
    pub sequence: String,
    pub output: String,
    /// Romaji that is fed back after `output` is emitted. Empty for most
    /// entries.
    pub carry: String,
}

/// The model of one mapping.
pub struct Mapping {
    pub sequence: Seq<char>,
    pub output: Seq<char>,
    pub carry: Seq<char>,
}

impl CompiledEntry {
    pub open spec fn view(&self) -> Mapping {
        Mapping { sequence: self.sequence@, output: self.output@, carry: self.carry@ }
    }
}

impl Clone for CompiledEntry {
    fn clone(&self) -> (r: Self)
        ensures
            r.view() == self.view(),
    {
        CompiledEntry {
            sequence: self.sequence.clone(),
            output: self.output.clone(),
            carry: self.carry.clone(),
        }
    }
}

/// A compiled table.
#[derive(Debug, PartialEq, Eq)]
pub struct Table {
    entries: Vec<CompiledEntry>,
}

/// The model of a list of compiled mappings.
pub open spec fn mappings(entries: Seq<CompiledEntry>) -> Seq<Mapping> {
    entries.map_values(|e: CompiledEntry| e.view())
}

impl View for Table {
    type V = Seq<Mapping>;

    closed spec fn view(&self) -> Seq<Mapping> {
        mappings(self.entries@)
    }
}

impl Clone for Table {
    fn clone(&self) -> (r: Self)
        ensures
            r@ == self@,
    {
        let mut entries: Vec<CompiledEntry> = Vec::new();
        let mut i: usize = 0;
        while i < self.entries.len()
            invariant
                i <= self.entries@.len(),
                entries@.len() == i,
                forall|k: int| 0 <= k < i ==> (#[trigger] entries@[k]).view() == self.entries@[k].view(),
            decreases self.entries@.len() - i,
        {
            entries.push(self.entries[i].clone());
            i = i + 1;
        }
        let r = Table { entries };
        assert(r@ =~= self@);
        r
    }
}

/// Why a table could not be compiled.
#[derive(Debug, PartialEq, Eq)]
pub struct TableError {
    /// The sequence at fault, where the fault belongs to one entry.
    pub sequence: Option<String>,
    pub kind: TableErrorKind,
}

/// The fault of a table.
#[derive(Debug, Clone, Copy, PartialEq, Eq, Structural)]
pub enum TableErrorKind {
    /// The document could not be read.
    Config(ParseError),
    /// There is no section of the table.
    MissingSection,
    /// The section has no entries. Nothing could be typed with it.
    EmptyTable,
    /// A sequence with a character that is not ASCII.
    NonAsciiSequence,
    /// A sequence with a capital letter. Lookup folds case, so it could never
    /// be reached.
    UppercaseSequence,
    /// A sequence that is empty or longer than [`MAX_SEQUENCE`].
    SequenceTooLong,
    /// A value that is neither a text nor a list of one or two texts.
    MalformedValue,
    /// An entry that emits nothing and carries nothing.
    EmptyEntry,
    /// A carry with a character that is not ASCII.
    NonAsciiCarry,
    /// A carry with a capital letter.
    UppercaseCarry,
    /// A carry that is not shorter than its sequence. That every carry is
    /// shorter is why matching terminates.
    CarryNotShorter,
}

// ---------------------------------------------------------------------------
// The model.

/// Whether a text holds a capital letter.
pub open spec fn has_upper(s: Seq<char>) -> bool {
    exists|i: int| 0 <= i < s.len() && 'A' <= #[trigger] s[i] && s[i] <= 'Z'
}

/// The mapping that an entry of a document is compiled to, or its fault.
pub open spec fn compiled(sequence: Seq<char>, value: config::ValueView) -> Result<
    Mapping,
    TableErrorKind,
> {
    let parts: Option<(Seq<char>, Seq<char>)> = match value {
        config::ValueView::Text(text) => Some((text, Seq::empty())),
        config::ValueView::List(items) => if items.len() == 1 {
            Some((items[0], Seq::empty()))
        } else if items.len() == 2 {
            Some((items[0], items[1]))
        } else {
            None
        },
    };
    if !is_ascii_chars(sequence) {
        Err(TableErrorKind::NonAsciiSequence)
    } else if has_upper(sequence) {
        Err(TableErrorKind::UppercaseSequence)
    } else if sequence.len() == 0 || sequence.len() > MAX_SEQUENCE {
        Err(TableErrorKind::SequenceTooLong)
    } else {
        match parts {
            None => Err(TableErrorKind::MalformedValue),
            Some((output, carry)) => if output.len() == 0 && carry.len() == 0 {
                Err(TableErrorKind::EmptyEntry)
            } else if !is_ascii_chars(carry) {
                Err(TableErrorKind::NonAsciiCarry)
            } else if has_upper(carry) {
                Err(TableErrorKind::UppercaseCarry)
            } else if carry.len() >= sequence.len() {
                Err(TableErrorKind::CarryNotShorter)
            } else {
                Ok(Mapping { sequence, output, carry })
            },
        }
    }
}

/// The mappings of the first `n` entries, or the fault of the first that has
/// one.
pub open spec fn compiled_all(entries: Seq<config::EntryView>, n: int) -> Result<
    Seq<Mapping>,
    (Seq<char>, TableErrorKind),
>
    decreases n,
{
    if n <= 0 {
        Ok(Seq::empty())
    } else {
        match compiled_all(entries, n - 1) {
            Err(e) => Err(e),
            Ok(before) => match compiled(entries[n - 1].key, entries[n - 1].value) {
                Err(kind) => Err((entries[n - 1].key, kind)),
                Ok(mapping) => Ok(before.push(mapping)),
            },
        }
    }
}

/// Whether a mapping is one that an entry can be compiled to.
pub open spec fn mapping_ok(m: Mapping) -> bool {
    &&& is_ascii_chars(m.sequence)
    &&& !has_upper(m.sequence)
    &&& 0 < m.sequence.len() <= MAX_SEQUENCE
    &&& is_ascii_chars(m.carry)
    &&& !has_upper(m.carry)
    &&& m.carry.len() < m.sequence.len()
    &&& m.output.len() > 0 || m.carry.len() > 0
}

/// Whether the sequences of a table ascend strictly.
pub open spec fn ascending(t: Seq<Mapping>) -> bool {
    forall|i: int, j: int|
        0 <= i < j < t.len() ==> strings::precedes(
            (#[trigger] t[i]).sequence,
            (#[trigger] t[j]).sequence,
        )
}

/// Whether a table is well formed.
pub open spec fn table_ok(t: Seq<Mapping>) -> bool {
    &&& forall|i: int| 0 <= i < t.len() ==> mapping_ok(#[trigger] t[i])
    &&& ascending(t)
}

/// Whether entry `i` has the sequence `s`.
pub open spec fn is_entry(t: Seq<Mapping>, s: Seq<char>, i: int) -> bool {
    0 <= i < t.len() && t[i].sequence == s
}

/// The entry with the sequence `s`.
pub open spec fn entry_of(t: Seq<Mapping>, s: Seq<char>) -> Option<int> {
    if exists|i: int| is_entry(t, s, i) {
        Some(choose|i: int| is_entry(t, s, i))
    } else {
        None
    }
}

/// Whether entry `i` is strictly longer than `s` and starts with it.
pub open spec fn starts_with(t: Seq<Mapping>, s: Seq<char>, i: int) -> bool {
    0 <= i < t.len() && s.len() < t[i].sequence.len() && s == t[i].sequence.take(s.len() as int)
}

/// Whether some entry is strictly longer than `s` and starts with it.
pub open spec fn has_longer(t: Seq<Mapping>, s: Seq<char>) -> bool {
    exists|i: int| starts_with(t, s, i)
}

/// The length of the longest prefix of `s` of at most `n` characters that is an
/// entry, or zero.
pub open spec fn longest_match(t: Seq<Mapping>, s: Seq<char>, n: int) -> int
    decreases n,
{
    if n <= 0 {
        0
    } else if entry_of(t, s.take(n)) is Some {
        n
    } else {
        longest_match(t, s, n - 1)
    }
}

impl TableError {
    /// The sequence at fault.
    pub open spec fn sequence_text(&self) -> Option<Seq<char>> {
        match self.sequence {
            Some(s) => Some(s@),
            None => None,
        }
    }
}

impl Clone for TableError {
    fn clone(&self) -> (r: Self)
        ensures
            r.sequence_text() == self.sequence_text(),
            r.kind == self.kind,
    {
        let sequence: Option<String> = match &self.sequence {
            Some(s) => Some(s.clone()),
            None => None,
        };
        TableError { sequence, kind: self.kind }
    }
}

/// A document that could not be read is no table.
impl From<ParseError> for TableError {
    fn from(error: ParseError) -> (r: Self) {
        TableError { sequence: None, kind: TableErrorKind::Config(error) }
    }
}

impl vstd::std_specs::convert::FromSpecImpl<ParseError> for TableError {
    open spec fn obeys_from_spec() -> bool {
        true
    }

    open spec fn from_spec(error: ParseError) -> Self {
        TableError { sequence: None, kind: TableErrorKind::Config(error) }
    }
}

impl TableErrorKind {
    /// The text that describes the fault.
    pub open spec fn text_of(self) -> Seq<char> {
        match self {
            TableErrorKind::Config(error) => error.text_of(),
            TableErrorKind::MissingSection => "no [kana] section"@,
            TableErrorKind::EmptyTable => "the table is empty"@,
            TableErrorKind::NonAsciiSequence => "sequence must be ASCII"@,
            TableErrorKind::UppercaseSequence => "sequence must be lowercase; lookup folds case"@,
            TableErrorKind::SequenceTooLong => "sequence is longer than 8 characters"@,
            TableErrorKind::MalformedValue => "value must be \"kana\" or [\"kana\", \"carry\"]"@,
            TableErrorKind::EmptyEntry => "entry emits nothing and carries nothing"@,
            TableErrorKind::NonAsciiCarry => "carry must be ASCII"@,
            TableErrorKind::UppercaseCarry => "carry must be lowercase"@,
            TableErrorKind::CarryNotShorter => "carry must be shorter than the sequence it comes from"@,
        }
    }

    /// The text that describes the fault.
    pub fn message(&self) -> (s: String)
        ensures
            s@ == self.text_of(),
    {
        match self {
            TableErrorKind::Config(error) => error.message(),
            TableErrorKind::MissingSection => "no [kana] section".to_owned(),
            TableErrorKind::EmptyTable => "the table is empty".to_owned(),
            TableErrorKind::NonAsciiSequence => "sequence must be ASCII".to_owned(),
            TableErrorKind::UppercaseSequence => "sequence must be lowercase; lookup folds case".to_owned(),
            TableErrorKind::SequenceTooLong => "sequence is longer than 8 characters".to_owned(),
            TableErrorKind::MalformedValue => "value must be \"kana\" or [\"kana\", \"carry\"]".to_owned(),
            TableErrorKind::EmptyEntry => "entry emits nothing and carries nothing".to_owned(),
            TableErrorKind::NonAsciiCarry => "carry must be ASCII".to_owned(),
            TableErrorKind::UppercaseCarry => "carry must be lowercase".to_owned(),
            TableErrorKind::CarryNotShorter => "carry must be shorter than the sequence it comes from".to_owned(),
        }
    }
}

impl TableError {
    /// The text that describes the fault, with the sequence it belongs to.
    pub open spec fn text_of(&self) -> Seq<char> {
        match self.sequence {
            Some(sequence) => "romaji entry "@ + strings::debug_form(sequence@) + ": "@
                + self.kind.text_of(),
            None => self.kind.text_of(),
        }
    }

    /// The text that describes the fault, with the sequence it belongs to.
    pub fn message(&self) -> (s: String)
        ensures
            s@ == self.text_of(),
    {
        match &self.sequence {
            Some(sequence) => {
                let mut s = "romaji entry ".to_owned();
                s.append(strings::debug_text(sequence.as_str()).as_str());
                s.append(": ");
                s.append(self.kind.message().as_str());
                s
            },
            None => self.kind.message(),
        }
    }
}

/// Whether an error is the fault that the entries of a section have.
pub open spec fn is_fault(e: TableError, entries: Seq<config::EntryView>) -> bool {
    match compiled_all(entries, entries.len() as int) {
        Err((sequence, kind)) => e.sequence_text() == Some(sequence) && e.kind == kind,
        Ok(all) => all.len() == 0 && e.sequence_text() is None && e.kind
            == TableErrorKind::EmptyTable,
    }
}

/// Whether `r` is what a document compiles to: the first fault, or the sorted
/// mappings of its table.
pub open spec fn compiles_to(document: Seq<config::SectionView>, r: Result<Table, TableError>) -> bool {
    match config::section_entries(document, TABLE_SECTION@) {
        None => r matches Err(e) && e.sequence_text() is None && e.kind
            == TableErrorKind::MissingSection,
        Some(entries) => match r {
            Err(e) => is_fault(e, entries),
            Ok(table) => {
                &&& compiled_all(entries, entries.len() as int) matches Ok(all)
                &&& all.len() > 0
                &&& table_ok(table@)
                &&& table@.to_multiset() == all.to_multiset()
            },
        },
    }
}

/// Whether `r` is what a source compiles to.
pub open spec fn source_compiles_to(source: Seq<char>, r: Result<Table, TableError>) -> bool {
    match config::parsed(source) {
        Err((line, kind)) => r matches Err(e) && e.sequence_text() is None && (
        e.kind matches TableErrorKind::Config(p) && p.line == line && p.kind == kind),
        Ok(document) => compiles_to(document, r),
    }
}

// ---------------------------------------------------------------------------
// Compiling.

fn contains_upper(s: &[char]) -> (r: bool)
    ensures
        r == has_upper(s@),
{
    let mut i: usize = 0;
    while i < s.len()
        invariant
            i <= s@.len(),
            forall|k: int| 0 <= k < i ==> !('A' <= #[trigger] s@[k] && s@[k] <= 'Z'),
        decreases s@.len() - i,
    {
        if 'A' <= s[i] && s[i] <= 'Z' {
            assert('A' <= s@[i as int] && s@[i as int] <= 'Z');
            return true;
        }
        i = i + 1;
    }
    false
}

/// Validates and compiles one entry.
fn compile_entry(sequence: &str, value: &Value) -> (r: Result<CompiledEntry, TableError>)
    ensures
        match compiled(sequence@, value.view()) {
            Ok(mapping) => r matches Ok(e) && e.view() == mapping && mapping_ok(mapping),
            Err(kind) => r matches Err(e) && e.sequence_text() == Some(sequence@) && e.kind == kind,
        },
{
    let chars = strings::chars_of(sequence);
    let kind = if !sequence.is_ascii() {
        Some(TableErrorKind::NonAsciiSequence)
    } else if contains_upper(chars.as_slice()) {
        Some(TableErrorKind::UppercaseSequence)
    } else if chars.len() == 0 || chars.len() > MAX_SEQUENCE {
        Some(TableErrorKind::SequenceTooLong)
    } else {
        None
    };
    if let Some(kind) = kind {
        return Err(TableError { sequence: Some(sequence.to_owned()), kind });
    }
    let (output, carry): (String, String) = match value {
        Value::Text(text) => (text.clone(), String::new()),
        Value::List(items) => {
            let ghost views = config::texts(items@);
            if items.len() == 1 {
                assert(views[0] == items@[0]@);
                (items[0].clone(), String::new())
            } else if items.len() == 2 {
                assert(views[0] == items@[0]@);
                assert(views[1] == items@[1]@);
                (items[0].clone(), items[1].clone())
            } else {
                return Err(
                    TableError {
                        sequence: Some(sequence.to_owned()),
                        kind: TableErrorKind::MalformedValue,
                    },
                );
            }
        },
    };
    let carried = strings::chars_of(carry.as_str());
    let kind = if output.as_str().is_empty() && carry.as_str().is_empty() {
        Some(TableErrorKind::EmptyEntry)
    } else if !carry.as_str().is_ascii() {
        Some(TableErrorKind::NonAsciiCarry)
    } else if contains_upper(carried.as_slice()) {
        Some(TableErrorKind::UppercaseCarry)
    } else if carried.len() >= chars.len() {
        Some(TableErrorKind::CarryNotShorter)
    } else {
        None
    };
    if let Some(kind) = kind {
        return Err(TableError { sequence: Some(sequence.to_owned()), kind });
    }
    Ok(CompiledEntry { sequence: sequence.to_owned(), output, carry })
}

/// Inserts an entry where its sequence belongs.
fn insert_sorted(entries: &mut Vec<CompiledEntry>, entry: CompiledEntry)
    requires
        table_ok(mappings(old(entries)@)),
        mapping_ok(entry.view()),
        forall|i: int|
            0 <= i < old(entries)@.len() ==> (#[trigger] old(entries)@[i]).sequence@
                != entry.sequence@,
    ensures
        table_ok(mappings(final(entries)@)),
        mappings(final(entries)@).to_multiset() == mappings(old(entries)@).to_multiset().insert(
            entry.view(),
        ),
        final(entries)@.len() == old(entries)@.len() + 1,
{
    let ghost before = entries@;
    let ghost t = mappings(before);
    let mut at: usize = 0;
    while at < entries.len()
        invariant
            entries@ == before,
            t == mappings(before),
            table_ok(t),
            mapping_ok(entry.view()),
            at <= before.len(),
            forall|i: int|
                0 <= i < before.len() ==> (#[trigger] before[i]).sequence@ != entry.sequence@,
            forall|i: int|
                0 <= i < at ==> strings::precedes((#[trigger] t[i]).sequence, entry.sequence@),
        ensures
            at <= before.len(),
            at < before.len() ==> strings::precedes(entry.sequence@, t[at as int].sequence),
        decreases before.len() - at,
    {
        assert(mapping_ok(t[at as int]));
        let (less, _) = strings::order_ascii(
            entries[at].sequence.as_str(),
            entry.sequence.as_str(),
        );
        if !less {
            break ;
        }
        at = at + 1;
    }
    let ghost added = entry.view();
    entries.insert(at, entry);
    proof {
        let now = mappings(entries@);
        assert(now =~= t.insert(at as int, added));
        assert forall|i: int, j: int| 0 <= i < j < now.len() implies strings::precedes(
            (#[trigger] now[i]).sequence,
            (#[trigger] now[j]).sequence,
        ) by {
            if i == at {
                if j > at + 1 {
                    strings::lemma_precedes_transitive(
                        added.sequence,
                        t[at as int].sequence,
                        t[j - 1].sequence,
                    );
                }
            } else if j == at {
            } else {
                let a = if i < at {
                    i
                } else {
                    i - 1
                };
                let b = if j < at {
                    j
                } else {
                    j - 1
                };
                assert(now[i] == t[a] && now[j] == t[b]);
            }
        }
        assert forall|i: int| 0 <= i < now.len() implies mapping_ok(#[trigger] now[i]) by {
            if i < at {
                assert(now[i] == t[i]);
            } else if i > at {
                assert(now[i] == t[i - 1]);
            }
        }
        vstd::seq_lib::to_multiset_remove(now, at as int);
        assert(now.remove(at as int) =~= t);
        broadcast use vstd::seq_lib::group_to_multiset_ensures;

        assert(now.contains(now[at as int]));
        assert(now.to_multiset() =~= t.to_multiset().insert(added));
    }
}

/// The mappings of compiled entries have the keys of the entries.
proof fn lemma_compiled_keys(entries: Seq<config::EntryView>, n: int)
    requires
        0 <= n <= entries.len(),
        compiled_all(entries, n) is Ok,
    ensures
        compiled_all(entries, n)->Ok_0.len() == n,
        forall|i: int|
            0 <= i < n ==> (#[trigger] compiled_all(entries, n)->Ok_0[i]).sequence
                == entries[i].key,
    decreases n,
{
    if n > 0 {
        lemma_compiled_keys(entries, n - 1);
    }
}

/// A fault in one entry is the fault of every longer list of entries.
proof fn lemma_fault_stays(entries: Seq<config::EntryView>, n: int, m: int)
    requires
        0 <= n <= m,
        compiled_all(entries, n) is Err,
    ensures
        compiled_all(entries, m) == compiled_all(entries, n),
    decreases m - n,
{
    if n < m {
        lemma_fault_stays(entries, n, m - 1);
    }
}

impl Table {
    /// Whether the table is well formed.
    pub open spec fn wf(&self) -> bool {
        table_ok(self@)
    }

    /// Compiles the shipped table. It does compile.
    pub fn builtin() -> (r: Result<Self, TableError>)
        ensures
            source_compiles_to(DEFAULT_TABLE@, r),
            r matches Ok(table) && table.wf(),
    {
        let r: Result<Self, TableError> = Self::parse(DEFAULT_TABLE);
        proof {
            shipped_laws::shipped_table_compiles(r);
        }
        r
    }

    /// Reads a document and compiles the table in it.
    pub fn parse(source: &str) -> (r: Result<Self, TableError>)
        ensures
            source_compiles_to(source@, r),
            r matches Ok(table) ==> table.wf(),
    {
        match config::parse(source) {
            Ok(document) => Self::from_document(&document),
            Err(error) => Err(TableError::from(error)),
        }
    }

    /// Compiles the table of a document.
    pub fn from_document(document: &Document) -> (r: Result<Self, TableError>)
        ensures
            compiles_to(document@, r),
            r matches Ok(table) ==> table.wf(),
    {
        let Some(entries) = document.section(TABLE_SECTION) else {
            return Err(TableError { sequence: None, kind: TableErrorKind::MissingSection });
        };
        let ghost views = config::entry_views(entries@);
        proof {
            config::lemma_find_section(document@, TABLE_SECTION@, 0);
        }
        assert(config::distinct_keys(views));
        let mut compiled_entries: Vec<CompiledEntry> = Vec::new();
        assert(mappings(compiled_entries@) =~= Seq::<Mapping>::empty());
        let mut n: usize = 0;
        while n < entries.len()
            invariant
                views == config::entry_views(entries@),
                config::section_entries(document@, TABLE_SECTION@) == Some(views),
                config::distinct_keys(views),
                n <= entries@.len(),
                compiled_entries@.len() == n,
                table_ok(mappings(compiled_entries@)),
                compiled_all(views, n as int) matches Ok(all) && all.to_multiset() == mappings(
                    compiled_entries@,
                ).to_multiset(),
            decreases entries@.len() - n,
        {
            assert(views[n as int] == entries@[n as int].view());
            let entry = match compile_entry(entries[n].key.as_str(), &entries[n].value) {
                Ok(entry) => entry,
                Err(e) => {
                    proof {
                        lemma_fault_stays(views, n + 1, views.len() as int);
                    }
                    return Err(e);
                },
            };
            proof {
                let all = compiled_all(views, n as int)->Ok_0;
                lemma_compiled_keys(views, n as int);
                broadcast use vstd::seq_lib::group_to_multiset_ensures;

                let t = mappings(compiled_entries@);
                assert forall|i: int| 0 <= i < compiled_entries@.len() implies (
                #[trigger] compiled_entries@[i]).sequence@ != entry.sequence@ by {
                    assert(t[i] == compiled_entries@[i].view());
                    assert(t.contains(t[i]));
                    assert(all.to_multiset().count(t[i]) > 0);
                    assert(all.contains(t[i]));
                    let k = all.index_of(t[i]);
                    assert(all[k].sequence == views[k].key);
                }
                vstd::seq_lib::to_multiset_build(all, entry.view());
            }
            insert_sorted(&mut compiled_entries, entry);
            n = n + 1;
        }
        proof {
            lemma_compiled_keys(views, n as int);
        }
        if compiled_entries.len() == 0 {
            return Err(TableError { sequence: None, kind: TableErrorKind::EmptyTable });
        }
        Ok(Table { entries: compiled_entries })
    }

    /// The compiled mappings, sorted by sequence.
    pub fn entries(&self) -> (entries: &[CompiledEntry])
        ensures
            mappings(entries@) == self@,
    {
        self.entries.as_slice()
    }

    /// The number of mappings.
    pub fn len(&self) -> (n: usize)
        ensures
            n == self@.len(),
    {
        self.entries.len()
    }

    /// Whether the table has no mappings.
    pub fn is_empty(&self) -> (r: bool)
        ensures
            r == (self@.len() == 0),
    {
        self.entries.len() == 0
    }

    /// The first entry whose sequence is not before `sequence`.
    fn insertion_point(&self, sequence: &str) -> (at: usize)
        requires
            self.wf(),
            is_ascii_chars(sequence@),
        ensures
            at <= self@.len(),
            forall|i: int|
                0 <= i < at ==> strings::precedes((#[trigger] self@[i]).sequence, sequence@),
            forall|i: int|
                at <= i < self@.len() ==> !strings::precedes(
                    (#[trigger] self@[i]).sequence,
                    sequence@,
                ),
    {
        let ghost t = self@;
        let mut low: usize = 0;
        let mut high: usize = self.entries.len();
        while low < high
            invariant
                t == self@,
                table_ok(t),
                is_ascii_chars(sequence@),
                low <= high <= self.entries@.len(),
                forall|i: int|
                    0 <= i < low ==> strings::precedes((#[trigger] t[i]).sequence, sequence@),
                forall|i: int|
                    high <= i < t.len() ==> !strings::precedes(
                        (#[trigger] t[i]).sequence,
                        sequence@,
                    ),
            decreases high - low,
        {
            let middle: usize = low + (high - low) / 2;
            assert(mapping_ok(t[middle as int]));
            let (less, _) = strings::order_ascii(
                self.entries[middle].sequence.as_str(),
                sequence,
            );
            if less {
                proof {
                    assert forall|i: int| 0 <= i < middle + 1 implies strings::precedes(
                        (#[trigger] t[i]).sequence,
                        sequence@,
                    ) by {
                        if i < middle {
                            strings::lemma_precedes_transitive(
                                t[i].sequence,
                                t[middle as int].sequence,
                                sequence@,
                            );
                        }
                    }
                }
                low = middle + 1;
            } else {
                proof {
                    assert forall|i: int| middle <= i < t.len() implies !strings::precedes(
                        (#[trigger] t[i]).sequence,
                        sequence@,
                    ) by {
                        if i > middle && strings::precedes(t[i].sequence, sequence@) {
                            strings::lemma_precedes_transitive(
                                t[middle as int].sequence,
                                t[i].sequence,
                                sequence@,
                            );
                        }
                    }
                }
                high = middle;
            }
        }
        low
    }

    /// The entry with the given sequence.
    pub fn index_of(&self, sequence: &str) -> (r: Option<usize>)
        requires
            self.wf(),
            is_ascii_chars(sequence@),
        ensures
            match entry_of(self@, sequence@) {
                Some(i) => r matches Some(k) && k == i && k < self@.len() && self@[i].sequence
                    == sequence@,
                None => r is None,
            },
    {
        let at: usize = self.insertion_point(sequence);
        proof {
            strings::lemma_precedes_irreflexive(sequence@);
            assert forall|i: int| is_entry(self@, sequence@, i) implies i == at by {
                if at < i {
                    assert(strings::precedes(self@[at as int].sequence, self@[i].sequence));
                }
            }
        }
        if at < self.entries.len() {
            assert(mapping_ok(self@[at as int]));
            if strings::same_text(self.entries[at].sequence.as_str(), sequence) {
                assert(is_entry(self@, sequence@, at as int));
                return Some(at);
            }
        }
        None
    }

    /// Whether some entry is strictly longer than `sequence` and starts with it.
    pub fn extends(&self, sequence: &str) -> (r: bool)
        requires
            self.wf(),
            is_ascii_chars(sequence@),
        ensures
            r == has_longer(self@, sequence@),
    {
        let ghost t = self@;
        let at: usize = self.insertion_point(sequence);
        let index: usize = match self.index_of(sequence) {
            Some(found) => {
                assert(found < self.entries.len());
                found + 1
            },
            None => at,
        };
        proof {
            strings::lemma_precedes_irreflexive(sequence@);
            if let Some(i) = entry_of(t, sequence@) {
                if at < i {
                    assert(strings::precedes(t[at as int].sequence, t[i].sequence));
                }
                assert(i == at);
            }
            // Everything from `index` on comes after the sequence.
            assert forall|i: int| index <= i < t.len() implies strings::precedes(
                sequence@,
                (#[trigger] t[i]).sequence,
            ) by {
                strings::lemma_precedes_total(sequence@, t[i].sequence);
                if t[i].sequence == sequence@ {
                    assert(is_entry(t, sequence@, i));
                    assert(strings::precedes(t[at as int].sequence, t[i].sequence));
                }
            }
            // Every entry that starts with the sequence stands from `index` on.
            assert forall|i: int| starts_with(t, sequence@, i) implies index <= i by {
                strings::lemma_prefix_precedes(sequence@, t[i].sequence);
                if i < at {
                    strings::lemma_precedes_transitive(
                        sequence@,
                        t[i].sequence,
                        sequence@,
                    );
                }
            }
        }
        if index >= self.entries.len() {
            return false;
        }
        assert(mapping_ok(t[index as int]));
        let candidate = self.entries[index].sequence.as_str();
        let r = begins_with(candidate, sequence);
        proof {
            if r {
                assert(starts_with(t, sequence@, index as int));
            } else if has_longer(t, sequence@) {
                let i = choose|i: int| starts_with(t, sequence@, i);
                strings::lemma_prefix_between(
                    sequence@,
                    t[index as int].sequence,
                    t[i].sequence,
                );
            }
        }
        r
    }

    /// The longest prefix of `sequence` that is an entry: the entry, and the
    /// length of the prefix.
    pub fn step_for(&self, sequence: &str) -> (r: Option<(usize, usize)>)
        requires
            self.wf(),
            is_ascii_chars(sequence@),
        ensures
            ({
                let n = longest_match(self@, sequence@, sequence@.len() as int);
                match r {
                    None => n == 0,
                    Some((index, consumed)) => consumed == n && 0 < n <= sequence@.len() && index
                        < self@.len() && entry_of(self@, sequence@.take(n)) == Some(index as int)
                        && self@[index as int].sequence == sequence@.take(n),
                }
            }),
    {
        let ghost s = sequence@;
        proof {
            is_ascii_chars_encode_utf8(s);
        }
        let mut consumed: usize = sequence.as_bytes().len();
        while consumed > 0
            invariant
                self.wf(),
                s == sequence@,
                is_ascii_chars(s),
                consumed <= s.len(),
                longest_match(self@, s, s.len() as int) == longest_match(
                    self@,
                    s,
                    consumed as int,
                ),
            decreases consumed,
        {
            let prefix = sequence.substring_ascii(0, consumed);
            assert(prefix@ =~= s.take(consumed as int));
            if let Some(index) = self.index_of(prefix) {
                return Some((index, consumed));
            }
            consumed = consumed - 1;
        }
        None
    }
}

/// Whether an ASCII text is strictly longer than another and starts with it.
fn begins_with(text: &str, head: &str) -> (r: bool)
    requires
        is_ascii_chars(text@),
        is_ascii_chars(head@),
    ensures
        r == (head@.len() < text@.len() && head@ == text@.take(head@.len() as int)),
{
    proof {
        is_ascii_chars_encode_utf8(text@);
        is_ascii_chars_encode_utf8(head@);
    }
    let n: usize = head.as_bytes().len();
    if n >= text.as_bytes().len() {
        return false;
    }
    let start = text.substring_ascii(0, n);
    assert(start@ =~= text@.take(n as int));
    strings::same_text(start, head)
}

} // verus!
