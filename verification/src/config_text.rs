//! Writing documents in the configuration language.

use crate::config;
use crate::config::{EntryView, LineView, ParseErrorKind, SectionView, ValueView};
use vstd::prelude::*;

verus! {

/// An entry with a text for its value.
pub open spec fn text_entry(key: Seq<char>, value: Seq<char>) -> EntryView {
    EntryView { key, value: ValueView::Text(value) }
}

/// Entries with texts for their values.
pub open spec fn text_entries(pairs: Seq<(&str, &str)>) -> Seq<EntryView> {
    Seq::new(pairs.len(), |i: int| text_entry(pairs[i].0@, pairs[i].1@))
}

/// The line of an entry, without its end.
pub open spec fn entry_line(entry: EntryView) -> Seq<char> {
    match entry.value {
        ValueView::Text(value) => entry.key + " = \""@ + value + "\""@,
        ValueView::List(_) => Seq::empty(),
    }
}

/// The lines of entries.
pub open spec fn entries_text(entries: Seq<EntryView>) -> Seq<char>
    decreases entries.len(),
{
    if entries.len() == 0 {
        Seq::empty()
    } else {
        entries_text(entries.drop_last()) + entry_line(entries.last()) + "\n"@
    }
}

/// The line of a header, without its end.
pub open spec fn header_line(name: Seq<char>) -> Seq<char> {
    "["@ + name + "]"@
}

/// The lines of a section.
pub open spec fn section_text(section: SectionView) -> Seq<char> {
    header_line(section.name) + "\n"@ + entries_text(section.entries)
}

/// The lines of a document, with an empty line between sections.
pub open spec fn document_text(document: Seq<SectionView>) -> Seq<char>
    decreases document.len(),
{
    if document.len() == 0 {
        Seq::empty()
    } else if document.len() == 1 {
        section_text(document[0])
    } else {
        document_text(document.drop_last()) + "\n"@ + section_text(document.last())
    }
}

/// A document that is being written.
pub struct Writer {
    text: String,
    sections: Ghost<Seq<SectionView>>,
}

impl View for Writer {
    type V = Seq<SectionView>;

    closed spec fn view(&self) -> Seq<SectionView> {
        self.sections@
    }
}

impl Writer {
    /// Whether the text is that of the sections.
    pub closed spec fn wf(&self) -> bool {
        self.text@ == document_text(self.sections@)
    }

    /// An empty document.
    pub fn new() -> (w: Self)
        ensures
            w.wf(),
            w@ == Seq::<SectionView>::empty(),
    {
        Writer { text: String::new(), sections: Ghost(Seq::empty()) }
    }

    /// Starts a section.
    fn section(&mut self, name: &str)
        requires
            old(self).wf(),
        ensures
            final(self).wf(),
            final(self)@ == old(self)@.push(
                SectionView { name: name@, entries: Seq::empty() },
            ),
            final(self)@.drop_last() == old(self)@,
    {
        let ghost before = self.sections@;
        let ghost section = SectionView { name: name@, entries: Seq::<EntryView>::empty() };
        let ghost text = self.text@;
        let empty: bool = self.text.as_str().is_empty();
        proof {
            if before.len() > 0 {
                lemma_text_not_empty(before);
            }
        }
        if !empty {
            self.text.append("\n");
        }
        self.text.append("[");
        self.text.append(name);
        self.text.append("]");
        self.text.append("\n");
        self.sections = Ghost(before.push(section));
        assert(before.push(section).drop_last() =~= before);
        assert(section_text(section) =~= header_line(name@) + "\n"@);
        assert(self.text@ =~= document_text(before.push(section)));
    }

    /// Adds an entry to the last section.
    fn entry(&mut self, key: &str, value: &str)
        requires
            old(self).wf(),
            old(self)@.len() > 0,
        ensures
            final(self).wf(),
            final(self)@.len() == old(self)@.len(),
            final(self)@.drop_last() == old(self)@.drop_last(),
            final(self)@.last().name == old(self)@.last().name,
            final(self)@.last().entries == old(self)@.last().entries.push(
                text_entry(key@, value@),
            ),
    {
        let ghost before = self.sections@;
        let ghost last = before.last();
        let ghost entry = text_entry(key@, value@);
        let ghost after = before.drop_last().push(
            SectionView { name: last.name, entries: last.entries.push(entry) },
        );
        self.text.append(key);
        self.text.append(" = \"");
        self.text.append(value);
        self.text.append("\"");
        self.text.append("\n");
        self.sections = Ghost(after);
        assert(last.entries.push(entry).drop_last() =~= last.entries);
        assert(after.drop_last() =~= before.drop_last());
        assert(section_text(after.last()) =~= section_text(last) + entry_line(entry) + "\n"@);
        assert(self.text@ =~= document_text(after));
    }

    /// Writes a section with its entries.
    pub fn write(&mut self, name: &str, entries: &[(&str, &str)])
        requires
            old(self).wf(),
        ensures
            final(self).wf(),
            final(self)@ == old(self)@.push(
                SectionView { name: name@, entries: text_entries(entries@) },
            ),
    {
        self.section(name);
        let mut i: usize = 0;
        assert(text_entries(entries@.take(0)) =~= Seq::<EntryView>::empty());
        while i < entries.len()
            invariant
                i <= entries@.len(),
                self.wf(),
                self@.len() == old(self)@.len() + 1,
                self@.drop_last() == old(self)@,
                self@.last().name == name@,
                self@.last().entries == text_entries(entries@.take(i as int)),
            decreases entries@.len() - i,
        {
            let (key, value): (&str, &str) = entries[i];
            self.entry(key, value);
            assert(text_entries(entries@.take(i + 1)) =~= text_entries(
                entries@.take(i as int),
            ).push(text_entry(key@, value@)));
            i = i + 1;
        }
        assert(entries@.take(i as int) =~= entries@);
        assert(self@ =~= self@.drop_last().push(self@.last()));
    }

    /// The text of the document.
    pub fn finish(self) -> (text: String)
        requires
            self.wf(),
        ensures
            text@ == document_text(self@),
    {
        self.text
    }
}

proof fn lemma_text_not_empty(document: Seq<SectionView>)
    requires
        document.len() > 0,
    ensures
        document_text(document).len() > 0,
{
    reveal_strlit("[");
}

// ---------------------------------------------------------------------------
// What is written reads back.

/// Whether a text needs no escapes and stays on its line.
pub open spec fn plain(text: Seq<char>) -> bool {
    forall|i: int|
        0 <= i < text.len() ==> #[trigger] text[i] != '"' && text[i] != '\\' && text[i] != '\n'
}

/// Whether a key needs no quotes.
pub open spec fn bare_key(key: Seq<char>) -> bool {
    key.len() > 0 && forall|i: int| 0 <= i < key.len() ==> config::is_bare(#[trigger] key[i])
}

/// Whether a name can be that of a section.
pub open spec fn section_name(name: Seq<char>) -> bool {
    name.len() > 0 && forall|i: int| 0 <= i < name.len() ==> config::is_name(#[trigger] name[i])
}

/// Whether an entry is written on one line that reads back.
pub open spec fn writable_entry(entry: EntryView) -> bool {
    bare_key(entry.key) && (entry.value matches ValueView::Text(value) && plain(value))
}

/// Whether every entry is written on one line that reads back.
pub open spec fn writable_entries(entries: Seq<EntryView>) -> bool {
    forall|i: int| 0 <= i < entries.len() ==> writable_entry(#[trigger] entries[i])
}

/// Whether every part of a document is written so that it reads back.
pub open spec fn writable(document: Seq<SectionView>) -> bool {
    forall|i: int|
        0 <= i < document.len() ==> section_name((#[trigger] document[i]).name)
            && writable_entries(document[i].entries)
}

proof fn lemma_skip_bare(s: Seq<char>, i: int, n: int, dots: bool)
    requires
        0 <= i <= n <= s.len(),
        forall|k: int|
            i <= k < n ==> if dots {
                config::is_name(#[trigger] s[k])
            } else {
                config::is_bare(s[k])
            },
    ensures
        config::skip_bare(s, i, dots) == config::skip_bare(s, n, dots),
    decreases n - i,
{
    if i < n {
        lemma_skip_bare(s, i + 1, n, dots);
    }
}

pub proof fn lemma_quoted_plain(s: Seq<char>, i: int, value: Seq<char>)
    requires
        0 <= i,
        i + value.len() < s.len(),
        s.subrange(i, i + value.len()) == value,
        s[i + value.len()] == '"',
        plain(value),
    ensures
        config::quoted(s, i) == Ok::<(Seq<char>, int), ParseErrorKind>(
            (value, i + value.len() + 1),
        ),
    decreases value.len(),
{
    if value.len() > 0 {
        assert(s.subrange(i, i + value.len())[0] == s[i]);
        assert(value[0] == s[i]);
        let rest = value.skip(1);
        assert(s.subrange(i + 1, i + 1 + rest.len()) =~= rest) by {
            assert forall|k: int| 0 <= k < rest.len() implies s.subrange(
                i + 1,
                i + 1 + rest.len(),
            )[k] == rest[k] by {
                assert(s.subrange(i, i + value.len())[k + 1] == s[i + k + 1]);
            }
        }
        assert(plain(rest));
        lemma_quoted_plain(s, i + 1, rest);
        assert(seq![s[i]] + rest =~= value);
    } else {
        assert(value =~= Seq::<char>::empty());
    }
}

proof fn lemma_entry_line(entry: EntryView)
    requires
        writable_entry(entry),
    ensures
        config::line_view(entry_line(entry)) == Ok::<LineView, ParseErrorKind>(
            LineView::Pair(entry),
        ),
        forall|k: int| 0 <= k < entry_line(entry).len() ==> #[trigger] entry_line(entry)[k] != '\n',
{
    reveal_strlit(" = \"");
    reveal_strlit("\"");
    let key = entry.key;
    let value = entry.value->Text_0;
    let s = entry_line(entry);
    let n = key.len() as int;
    assert(s.len() == n + 4 + value.len() + 1);
    assert forall|k: int| 0 <= k < s.len() implies #[trigger] s[k] != '\n' by {
        if k < n {
            assert(s[k] == key[k]);
        } else if k >= n + 4 && k < n + 4 + value.len() {
            assert(s[k] == value[k - n - 4]);
        }
    }
    assert(s[0] == key[0]);
    assert(config::is_bare(key[0]));
    assert(config::skip_blanks(s, 0) == 0);
    assert forall|k: int| 0 <= k < n implies config::is_bare(#[trigger] s[k]) by {
        assert(s[k] == key[k]);
    }
    lemma_skip_bare(s, 0, n, false);
    assert(s[n] == ' ');
    assert(config::skip_bare(s, n, false) == n);
    assert(s.subrange(0, n) =~= key);
    assert(s[n + 1] == '=');
    assert(config::skip_blanks(s, n + 1) == n + 1);
    assert(config::skip_blanks(s, n) == n + 1);
    assert(s[n + 2] == ' ');
    assert(s[n + 3] == '"');
    assert(config::skip_blanks(s, n + 3) == n + 3);
    assert(config::skip_blanks(s, n + 2) == n + 3);
    assert(s.subrange(n + 4, n + 4 + value.len()) =~= value);
    assert(s[n + 4 + value.len()] == '"');
    lemma_quoted_plain(s, n + 4, value);
    assert(config::ends_at(s, s.len() as int));
}

pub proof fn lemma_header_line(name: Seq<char>)
    requires
        section_name(name),
    ensures
        config::line_view(header_line(name)) == Ok::<LineView, ParseErrorKind>(
            LineView::Header(name),
        ),
        forall|k: int| 0 <= k < header_line(name).len() ==> #[trigger] header_line(name)[k] != '\n',
{
    reveal_strlit("[");
    reveal_strlit("]");
    let s = header_line(name);
    let n = name.len() as int;
    assert(s.len() == n + 2);
    assert(s[0] == '[');
    assert(s[n + 1] == ']');
    assert forall|k: int| 1 <= k < n + 1 implies config::is_name(#[trigger] s[k]) by {
        assert(s[k] == name[k - 1]);
    }
    assert(config::skip_blanks(s, 0) == 0);
    lemma_skip_bare(s, 1, n + 1, true);
    assert(config::skip_bare(s, n + 1, true) == n + 1);
    assert(s.subrange(1, n + 1) =~= name);
    assert(config::ends_at(s, n + 2));
}

/// Where a line ends depends only on what follows its start.
proof fn lemma_line_end_shift(source: Seq<char>, i: int, k: int)
    requires
        0 <= i <= source.len(),
        0 <= k <= source.len() - i,
    ensures
        config::line_end(source, i + k) == i + config::line_end(source.skip(i), k),
    decreases source.len() - i - k,
{
    if i + k < source.len() && source[i + k] != '\n' {
        lemma_line_end_shift(source, i, k + 1);
    }
}

/// What follows depends only on the rest of the text.
proof fn lemma_parsed_shift(
    source: Seq<char>,
    i: int,
    k: int,
    number: int,
    document: Seq<SectionView>,
)
    requires
        0 <= i,
        0 <= k,
        i + k <= source.len(),
    ensures
        config::parsed_from(source, i + k, number, document) == config::parsed_from(
            source.skip(i),
            k,
            number,
            document,
        ),
    decreases source.len() - i - k,
{
    let rest = source.skip(i);
    config::lemma_line_end(source, i + k);
    lemma_line_end_shift(source, i, k);
    let end = config::line_end(source, i + k);
    assert(source.subrange(i + k, end) =~= rest.subrange(k, end - i));
    if end < source.len() {
        if let Ok(line) = config::line_view(source.subrange(i + k, end)) {
            if let Ok(next) = config::with_line(document, line) {
                lemma_parsed_shift(source, i, end + 1 - i, number + 1, next);
            }
        }
    }
}

/// What a text makes of a document.
#[verifier::opaque]
spec fn outcome(text: Seq<char>, number: int, document: Seq<SectionView>) -> Result<
    Seq<SectionView>,
    (int, ParseErrorKind),
> {
    config::parsed_from(text, 0, number, document)
}

/// A line is read, and then the rest.
proof fn lemma_first_line(
    line: Seq<char>,
    rest: Seq<char>,
    number: int,
    document: Seq<SectionView>,
    read: LineView,
    next: Seq<SectionView>,
)
    requires
        forall|k: int| 0 <= k < line.len() ==> #[trigger] line[k] != '\n',
        config::line_view(line) == Ok::<LineView, ParseErrorKind>(read),
        config::with_line(document, read) == Ok::<Seq<SectionView>, ParseErrorKind>(next),
    ensures
        outcome(line + "\n"@ + rest, number, document) == outcome(rest, number + 1, next),
{
    reveal(outcome);
    reveal_strlit("\n");
    let source = line + "\n"@ + rest;
    let n = line.len() as int;
    config::lemma_line_end(source, 0);
    let end = config::line_end(source, 0);
    assert(source[n] == '\n');
    assert(end == n) by {
        if end > n {
            assert(source[n] != '\n');
        }
        if end < n {
            assert(source[end] == line[end]);
        }
    }
    assert(source.subrange(0, n) =~= line);
    lemma_parsed_shift(source, n + 1, 0, number + 1, next);
    assert(source.skip(n + 1) =~= rest);
}

proof fn lemma_entries_read(
    document: Seq<SectionView>,
    name: Seq<char>,
    entries: Seq<EntryView>,
    rest: Seq<char>,
    number: int,
)
    requires
        writable_entries(entries),
        config::distinct_keys(entries),
    ensures
        outcome(
            entries_text(entries) + rest,
            number,
            document.push(SectionView { name, entries: Seq::empty() }),
        ) == outcome(
            rest,
            number + entries.len(),
            document.push(SectionView { name, entries }),
        ),
    decreases entries.len(),
{
    if entries.len() == 0 {
        assert(entries_text(entries) + rest =~= rest);
        assert(entries =~= Seq::<EntryView>::empty());
    } else {
        let before = entries.drop_last();
        let last = entries.last();
        let line = entry_line(last);
        assert(writable_entries(before));
        assert(config::distinct_keys(before));
        lemma_entries_read(document, name, before, line + "\n"@ + rest, number);
        assert(entries_text(entries) + rest =~= entries_text(before) + (line + "\n"@ + rest));
        assert(writable_entry(entries[entries.len() - 1]));
        lemma_entry_line(last);
        let start = document.push(SectionView { name, entries: before });
        let next = document.push(SectionView { name, entries });
        config::lemma_find_entry(before, last.key, 0);
        assert(config::find_entry(before, last.key, 0) is None) by {
            if let Some(k) = config::find_entry(before, last.key, 0) {
                assert(entries[k].key == entries[entries.len() - 1].key);
            }
        }
        assert(before.push(last) =~= entries);
        assert(start.drop_last().push(SectionView { name, entries }) =~= next);
        lemma_first_line(
            line,
            rest,
            number + before.len(),
            start,
            LineView::Pair(last),
            next,
        );
    }
}

proof fn lemma_section_read(
    document: Seq<SectionView>,
    section: SectionView,
    rest: Seq<char>,
    number: int,
)
    requires
        section_name(section.name),
        writable_entries(section.entries),
        config::distinct_keys(section.entries),
        config::find_section(document, section.name, 0) is None,
    ensures
        outcome(section_text(section) + rest, number, document)
            == outcome(
            rest,
            number + 1 + section.entries.len(),
            document.push(section),
        ),
{
    lemma_header_line(section.name);
    let line = header_line(section.name);
    let body = entries_text(section.entries) + rest;
    assert(section_text(section) + rest =~= line + "\n"@ + body);
    lemma_first_line(
        line,
        body,
        number,
        document,
        LineView::Header(section.name),
        document.push(SectionView { name: section.name, entries: Seq::empty() }),
    );
    lemma_entries_read(document, section.name, section.entries, rest, number + 1);
}

/// The number of lines of a document.
pub open spec fn line_count(document: Seq<SectionView>) -> int
    decreases document.len(),
{
    if document.len() == 0 {
        0
    } else if document.len() == 1 {
        1int + document[0].entries.len()
    } else {
        line_count(document.drop_last()) + 2 + document.last().entries.len()
    }
}

proof fn lemma_document_read(document: Seq<SectionView>, rest: Seq<char>)
    requires
        writable(document),
        config::well_formed(document),
    ensures
        outcome(document_text(document) + rest, 1, Seq::empty())
            == outcome(rest, 1 + line_count(document), document),
    decreases document.len(),
{
    let none = Seq::<SectionView>::empty();
    if document.len() == 0 {
        assert(document_text(document) + rest =~= rest);
        assert(document =~= none);
    } else if document.len() == 1 {
        let section = document[0];
        lemma_section_read(none, section, rest, 1);
        assert(none.push(section) =~= document);
    } else {
        let before = document.drop_last();
        let last = document[document.len() - 1];
        assert(writable(before));
        assert(config::well_formed(before)) by {
            assert forall|i: int| 0 <= i < before.len() implies config::distinct_keys(
                (#[trigger] before[i]).entries,
            ) by {
                assert(before[i] == document[i]);
            }
        }
        let line = Seq::<char>::empty();
        let tail = section_text(last) + rest;
        lemma_document_read(before, line + "\n"@ + tail);
        assert(document_text(document) + rest =~= document_text(before) + (line + "\n"@ + tail));
        assert(config::find_section(before, last.name, 0) is None) by {
            config::lemma_find_section(before, last.name, 0);
            if let Some(k) = config::find_section(before, last.name, 0) {
                assert(document[k].name == last.name);
            }
        }
        assert(before.push(last) =~= document);
        lemma_next_section(before, last, rest, 1 + line_count(before));
    }
}

/// An empty line and a section are read.
proof fn lemma_next_section(
    document: Seq<SectionView>,
    section: SectionView,
    rest: Seq<char>,
    number: int,
)
    requires
        section_name(section.name),
        writable_entries(section.entries),
        config::distinct_keys(section.entries),
        config::find_section(document, section.name, 0) is None,
    ensures
        outcome(
            Seq::<char>::empty() + "\n"@ + (section_text(section) + rest),
            number,
            document,
        ) == outcome(
            rest,
            number + 2 + section.entries.len(),
            document.push(section),
        ),
{
    let line = Seq::<char>::empty();
    assert(config::line_view(line) == Ok::<LineView, ParseErrorKind>(LineView::Blank));
    lemma_first_line(
        line,
        section_text(section) + rest,
        number,
        document,
        LineView::Blank,
        document,
    );
    lemma_section_read(document, section, rest, number + 1);
}

/// A document whose names, keys and texts need no quotes and no escapes reads back as
/// the same document.
pub proof fn written_documents_read_back(document: Seq<SectionView>)
    requires
        writable(document),
        config::well_formed(document),
        document_text(document).len() < usize::MAX,
    ensures
        config::parsed(document_text(document)) == Ok::<
            Seq<SectionView>,
            (int, ParseErrorKind),
        >(document),
{
    let text = document_text(document);
    let none = Seq::<char>::empty();
    assert(text + none =~= text);
    lemma_document_read(document, none);
    reveal(outcome);
    assert(config::line_end(none, 0) == 0);
    assert(none.subrange(0, 0) =~= none);
    assert(config::line_view(none) == Ok::<LineView, ParseErrorKind>(LineView::Blank));
}

// ---------------------------------------------------------------------------
// Reading a text line by line.

/// Whether a text stands in a source at `i`.
pub open spec fn text_at(s: Seq<char>, i: int, text: Seq<char>) -> bool {
    i + text.len() <= s.len() && s.subrange(i, i + text.len()) =~= text
}

/// A line is read, and then what follows it.
pub proof fn lemma_line_read(
    s: Seq<char>,
    i: int,
    line: Seq<char>,
    number: int,
    document: Seq<SectionView>,
    read: LineView,
    next: Seq<SectionView>,
)
    requires
        0 <= i,
        i + line.len() < s.len(),
        s.subrange(i, i + line.len()) == line,
        s[i + line.len()] == '\n',
        forall|k: int| 0 <= k < line.len() ==> #[trigger] line[k] != '\n',
        config::line_view(line) == Ok::<LineView, ParseErrorKind>(read),
        config::with_line(document, read) == Ok::<Seq<SectionView>, ParseErrorKind>(next),
    ensures
        config::parsed_from(s, i, number, document) == config::parsed_from(
            s,
            i + line.len() + 1,
            number + 1,
            next,
        ),
{
    config::lemma_line_end(s, i);
    let end = config::line_end(s, i);
    let n = i + line.len();
    assert(end == n) by {
        if end > n {
            assert(s[n] != '\n');
        }
        if end < n {
            assert(s.subrange(i, n)[end - i] == s[end]);
        }
    }
}

/// An entry with quotes around its key is read.
pub proof fn lemma_quoted_entry(key: Seq<char>, value: Seq<char>)
    requires
        plain(key),
        plain(value),
    ensures
        ({
            let line = "\""@ + key + "\" = \""@ + value + "\""@;
            &&& config::line_view(line) == Ok::<LineView, ParseErrorKind>(
                LineView::Pair(text_entry(key, value)),
            )
            &&& forall|k: int| 0 <= k < line.len() ==> #[trigger] line[k] != '\n'
        }),
{
    reveal_strlit("\"");
    reveal_strlit("\" = \"");
    let s = "\""@ + key + "\" = \""@ + value + "\""@;
    let n = key.len() as int;
    let m = value.len() as int;
    assert(s.len() == n + m + 7);
    assert forall|k: int| 0 <= k < s.len() implies #[trigger] s[k] != '\n' by {
        if 1 <= k < n + 1 {
            assert(s[k] == key[k - 1]);
        } else if n + 6 <= k < n + 6 + m {
            assert(s[k] == value[k - n - 6]);
        }
    }
    assert(s[0] == '"');
    assert(config::skip_blanks(s, 0) == 0);
    assert(s.subrange(1, 1 + n) =~= key);
    assert(s[n + 1] == '"');
    lemma_quoted_plain(s, 1, key);
    assert(s[n + 2] == ' ' && s[n + 3] == '=' && s[n + 4] == ' ' && s[n + 5] == '"');
    assert(config::skip_blanks(s, n + 3) == n + 3);
    assert(config::skip_blanks(s, n + 2) == n + 3);
    assert(config::skip_blanks(s, n + 5) == n + 5);
    assert(config::skip_blanks(s, n + 4) == n + 5);
    assert(s.subrange(n + 6, n + 6 + m) =~= value);
    assert(s[n + 6 + m] == '"');
    lemma_quoted_plain(s, n + 6, value);
    assert(config::ends_at(s, s.len() as int));
}

/// An entry with quotes around its key and a list of two texts is read.
pub proof fn lemma_quoted_list(key: Seq<char>, a: Seq<char>, b: Seq<char>)
    requires
        plain(key),
        plain(a),
        plain(b),
    ensures
        ({
            let line = "\""@ + key + "\" = [\""@ + a + "\", \""@ + b + "\"]"@;
            &&& config::line_view(line) == Ok::<LineView, ParseErrorKind>(
                LineView::Pair(EntryView { key, value: ValueView::List(seq![a, b]) }),
            )
            &&& forall|k: int| 0 <= k < line.len() ==> #[trigger] line[k] != '\n'
        }),
{
    reveal_strlit("\"");
    reveal_strlit("\" = [\"");
    reveal_strlit("\", \"");
    reveal_strlit("\"]");
    let s = "\""@ + key + "\" = [\""@ + a + "\", \""@ + b + "\"]"@;
    let n = key.len() as int;
    let m = a.len() as int;
    let l = b.len() as int;
    assert(s.len() == n + m + l + 13);
    assert forall|k: int| 0 <= k < s.len() implies #[trigger] s[k] != '\n' by {
        if 1 <= k < n + 1 {
            assert(s[k] == key[k - 1]);
        } else if n + 7 <= k < n + 7 + m {
            assert(s[k] == a[k - n - 7]);
        } else if n + m + 11 <= k < n + m + 11 + l {
            assert(s[k] == b[k - n - m - 11]);
        }
    }
    assert(s[0] == '"');
    assert(config::skip_blanks(s, 0) == 0);
    assert(s.subrange(1, 1 + n) =~= key);
    assert(s[n + 1] == '"');
    lemma_quoted_plain(s, 1, key);
    assert(s[n + 2] == ' ' && s[n + 3] == '=' && s[n + 4] == ' ' && s[n + 5] == '[');
    assert(config::skip_blanks(s, n + 3) == n + 3);
    assert(config::skip_blanks(s, n + 2) == n + 3);
    assert(config::skip_blanks(s, n + 5) == n + 5);
    assert(config::skip_blanks(s, n + 4) == n + 5);
    assert(s[n + 6] == '"');
    assert(config::skip_blanks(s, n + 6) == n + 6);
    assert(s.subrange(n + 7, n + 7 + m) =~= a);
    assert(s[n + 7 + m] == '"' && s[n + 8 + m] == ',' && s[n + 9 + m] == ' ' && s[n + 10 + m]
        == '"');
    lemma_quoted_plain(s, n + 7, a);
    assert(config::skip_blanks(s, n + 8 + m) == n + 8 + m);
    assert(config::skip_blanks(s, n + 10 + m) == n + 10 + m);
    assert(config::skip_blanks(s, n + 9 + m) == n + 10 + m);
    assert(s.subrange(n + m + 11, n + m + 11 + l) =~= b);
    assert(s[n + m + 11 + l] == '"' && s[n + m + 12 + l] == ']');
    lemma_quoted_plain(s, n + m + 11, b);
    assert(config::skip_blanks(s, n + m + 12 + l) == n + m + 12 + l);
    assert(config::list_items(s, n + 9 + m) == Ok::<(Seq<Seq<char>>, int), ParseErrorKind>(
        (seq![b], n + m + 13 + l),
    ));
    assert(seq![a] + seq![b] =~= seq![a, b]);
    assert(config::list_items(s, n + 6) == Ok::<(Seq<Seq<char>>, int), ParseErrorKind>(
        (seq![a, b], n + m + 13 + l),
    ));
    assert(config::ends_at(s, s.len() as int));
}

} // verus!
