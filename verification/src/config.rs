//! The small configuration language that tables and preferences are written in.
//!
//! A document is a list of sections, and a section a list of entries:
//!
//! ```text
//! # a comment
//! [section.name]
//! key = "text"
//! "quoted key" = ["one", "two"]
//! ```
//!
//! Every line stands for itself. A value is a quoted text or a list of quoted
//! texts on one line; the escapes are `\"`, `\\`, `\n`, `\t` and `\r`. A section
//! may be named once, and a key once in each section.

use crate::strings;
use vstd::prelude::*;

verus! {

/// What an entry is set to.
#[derive(Debug, PartialEq, Eq)]
pub enum Value {
    Text(String),
    List(Vec<String>),
}

/// One `key = value` line.
#[derive(Debug, PartialEq, Eq)]
pub struct Entry {
    pub key: String,
    pub value: Value,
}

/// A section with its entries.
#[derive(Debug, PartialEq, Eq)]
pub struct Section {
    pub name: String,
    pub entries: Vec<Entry>,
}

/// A parsed document: no two sections have the same name, and no two entries of a
/// section the same key.
#[derive(Debug, PartialEq, Eq)]
pub struct Document {
    sections: Vec<Section>,
}

/// Why a line was refused.
#[derive(Debug, Clone, Copy, PartialEq, Eq, Structural)]
pub enum ParseErrorKind {
    /// A section header that is not `[name]`.
    BadHeader,
    /// A section that was named before.
    DuplicateSection,
    /// An entry before the first section.
    EntryOutsideSection,
    /// An entry without a key.
    BadKey,
    /// An entry without `=` behind its key.
    MissingEquals,
    /// A key that the section has already.
    DuplicateKey,
    /// A value that is neither a text nor a list of texts.
    BadValue,
    /// A text without its closing quote.
    UnterminatedText,
    /// A backslash before a character that has no escape.
    BadEscape,
    /// Something else behind the value or the header.
    TrailingText,
    /// More characters than there are line numbers.
    TooLong,
}

/// A fault, and the line it is on, counted from one.
#[derive(Debug, Clone, Copy, PartialEq, Eq, Structural)]
pub struct ParseError {
    pub line: usize,
    pub kind: ParseErrorKind,
}

impl ParseErrorKind {
    /// The text that describes the fault.
    pub open spec fn text_of(self) -> Seq<char> {
        match self {
            ParseErrorKind::BadHeader => "a section header must be [name]"@,
            ParseErrorKind::DuplicateSection => "the section was named before"@,
            ParseErrorKind::EntryOutsideSection => "an entry must stand in a section"@,
            ParseErrorKind::BadKey => "an entry must start with a key"@,
            ParseErrorKind::MissingEquals => "a key must be followed by ="@,
            ParseErrorKind::DuplicateKey => "the section has the key already"@,
            ParseErrorKind::BadValue => "a value must be a quoted text or a list of them"@,
            ParseErrorKind::UnterminatedText => "a text has no closing quote"@,
            ParseErrorKind::BadEscape => "a text holds an unknown escape"@,
            ParseErrorKind::TrailingText => "there is text behind the end of the line"@,
            ParseErrorKind::TooLong => "the document is too long"@,
        }
    }

    fn text(self) -> (s: &'static str)
        ensures
            s@ == self.text_of(),
    {
        match self {
            ParseErrorKind::BadHeader => "a section header must be [name]",
            ParseErrorKind::DuplicateSection => "the section was named before",
            ParseErrorKind::EntryOutsideSection => "an entry must stand in a section",
            ParseErrorKind::BadKey => "an entry must start with a key",
            ParseErrorKind::MissingEquals => "a key must be followed by =",
            ParseErrorKind::DuplicateKey => "the section has the key already",
            ParseErrorKind::BadValue => "a value must be a quoted text or a list of them",
            ParseErrorKind::UnterminatedText => "a text has no closing quote",
            ParseErrorKind::BadEscape => "a text holds an unknown escape",
            ParseErrorKind::TrailingText => "there is text behind the end of the line",
            ParseErrorKind::TooLong => "the document is too long",
        }
    }
}

impl ParseError {
    /// The text that describes the fault: its line, and what is wrong there.
    pub open spec fn text_of(self) -> Seq<char> {
        "line "@ + strings::decimal(self.line as nat) + ": "@ + self.kind.text_of()
    }

    /// The text that describes the fault.
    pub fn message(&self) -> (s: String)
        ensures
            s@ == self.text_of(),
    {
        let mut s = "line ".to_owned();
        strings::push_decimal(&mut s, self.line as u64);
        s.append(": ");
        s.append(self.kind.text());
        s
    }
}

// ---------------------------------------------------------------------------
// The model of a document.

/// What an entry is set to.
pub enum ValueView {
    Text(Seq<char>),
    List(Seq<Seq<char>>),
}

/// One entry.
pub struct EntryView {
    pub key: Seq<char>,
    pub value: ValueView,
}

/// A section with its entries.
pub struct SectionView {
    pub name: Seq<char>,
    pub entries: Seq<EntryView>,
}

/// The texts of a list.
pub open spec fn texts(items: Seq<String>) -> Seq<Seq<char>> {
    items.map_values(|s: String| s@)
}

impl Value {
    pub open spec fn view(&self) -> ValueView {
        match *self {
            Value::Text(s) => ValueView::Text(s@),
            Value::List(items) => ValueView::List(texts(items@)),
        }
    }

    /// The text, where the value is one.
    pub fn as_text(&self) -> (r: Option<&str>)
        ensures
            match self.view() {
                ValueView::Text(s) => r matches Some(t) && t@ == s,
                ValueView::List(_) => r is None,
            },
    {
        match self {
            Value::Text(s) => Some(s.as_str()),
            Value::List(_) => None,
        }
    }
}

impl Entry {
    pub open spec fn view(&self) -> EntryView {
        EntryView { key: self.key@, value: self.value.view() }
    }
}

/// The model of a list of entries.
pub open spec fn entry_views(entries: Seq<Entry>) -> Seq<EntryView> {
    entries.map_values(|e: Entry| e.view())
}

impl Section {
    pub open spec fn view(&self) -> SectionView {
        SectionView { name: self.name@, entries: entry_views(self.entries@) }
    }
}

/// The model of a list of sections.
pub open spec fn section_views(sections: Seq<Section>) -> Seq<SectionView> {
    sections.map_values(|s: Section| s.view())
}

impl View for Document {
    type V = Seq<SectionView>;

    closed spec fn view(&self) -> Seq<SectionView> {
        section_views(self.sections@)
    }
}

/// The position of the section with the given name, from `i` on.
pub open spec fn find_section(document: Seq<SectionView>, name: Seq<char>, i: int) -> Option<int>
    decreases document.len() - i,
{
    if i >= document.len() {
        None
    } else if document[i].name == name {
        Some(i)
    } else {
        find_section(document, name, i + 1)
    }
}

/// The position of the entry with the given key, from `i` on.
pub open spec fn find_entry(entries: Seq<EntryView>, key: Seq<char>, i: int) -> Option<int>
    decreases entries.len() - i,
{
    if i >= entries.len() {
        None
    } else if entries[i].key == key {
        Some(i)
    } else {
        find_entry(entries, key, i + 1)
    }
}

/// The entries of a section, where there is one of that name.
pub open spec fn section_entries(document: Seq<SectionView>, name: Seq<char>) -> Option<
    Seq<EntryView>,
> {
    match find_section(document, name, 0) {
        Some(i) => Some(document[i].entries),
        None => None,
    }
}

/// The value of a key of a section.
pub open spec fn value_at(document: Seq<SectionView>, name: Seq<char>, key: Seq<char>) -> Option<
    ValueView,
> {
    match section_entries(document, name) {
        Some(entries) => match find_entry(entries, key, 0) {
            Some(i) => Some(entries[i].value),
            None => None,
        },
        None => None,
    }
}

/// The text that a key of a section is set to.
pub open spec fn text_at(document: Seq<SectionView>, name: Seq<char>, key: Seq<char>) -> Option<
    Seq<char>,
> {
    match value_at(document, name, key) {
        Some(ValueView::Text(s)) => Some(s),
        _ => None,
    }
}

/// The position of the section with the given name.
fn position_of(sections: &[Section], name: &str) -> (r: Option<usize>)
    ensures
        match find_section(section_views(sections@), name@, 0) {
            Some(i) => r matches Some(k) && k == i && k < sections@.len(),
            None => r is None,
        },
{
    let ghost views = section_views(sections@);
    let mut i: usize = 0;
    while i < sections.len()
        invariant
            i <= sections@.len(),
            views == section_views(sections@),
            find_section(views, name@, 0) == find_section(views, name@, i as int),
        decreases sections@.len() - i,
    {
        if strings::same_text(sections[i].name.as_str(), name) {
            return Some(i);
        }
        i = i + 1;
    }
    None
}

impl Document {
    #[verifier::type_invariant]
    spec fn distinct(&self) -> bool {
        well_formed(self@)
    }

    /// The sections, in order.
    pub fn sections(&self) -> (r: &[Section])
        ensures
            section_views(r@) == self@,
            well_formed(self@),
    {
        proof {
            use_type_invariant(self);
        }
        self.sections.as_slice()
    }

    /// The entries of a section, where there is one of that name.
    pub fn section(&self, name: &str) -> (r: Option<&[Entry]>)
        ensures
            match section_entries(self@, name@) {
                Some(entries) => r matches Some(found) && entry_views(found@) == entries,
                None => r is None,
            },
            well_formed(self@),
    {
        proof {
            use_type_invariant(self);
        }
        match position_of(self.sections.as_slice(), name) {
            Some(i) => Some(self.sections[i].entries.as_slice()),
            None => None,
        }
    }

    /// The value of a key of a section.
    pub fn value(&self, name: &str, key: &str) -> (r: Option<&Value>)
        ensures
            match value_at(self@, name@, key@) {
                Some(value) => r matches Some(found) && found.view() == value,
                None => r is None,
            },
    {
        let Some(entries) = self.section(name) else {
            return None;
        };
        let ghost views = entry_views(entries@);
        let mut i: usize = 0;
        while i < entries.len()
            invariant
                i <= entries@.len(),
                views == entry_views(entries@),
                section_entries(self@, name@) == Some(views),
                find_entry(views, key@, 0) == find_entry(views, key@, i as int),
            decreases entries@.len() - i,
        {
            if strings::same_text(entries[i].key.as_str(), key) {
                return Some(&entries[i].value);
            }
            i = i + 1;
        }
        None
    }

    /// The text that a key of a section is set to.
    pub fn text(&self, name: &str, key: &str) -> (r: Option<&str>)
        ensures
            match text_at(self@, name@, key@) {
                Some(s) => r matches Some(found) && found@ == s,
                None => r is None,
            },
    {
        match self.value(name, key) {
            Some(value) => value.as_text(),
            None => None,
        }
    }
}

// ---------------------------------------------------------------------------
// The language.

/// A character between tokens.
pub open spec fn is_blank(c: char) -> bool {
    c == ' ' || c == '\t' || c == '\r'
}

/// A character of a key that needs no quotes.
pub open spec fn is_bare(c: char) -> bool {
    ('a' <= c && c <= 'z') || ('A' <= c && c <= 'Z') || ('0' <= c && c <= '9') || c == '-' || c
        == '_'
}

/// A character of a section name.
pub open spec fn is_name(c: char) -> bool {
    is_bare(c) || c == '.'
}

/// The first position from `i` on that holds no blank.
pub open spec fn skip_blanks(s: Seq<char>, i: int) -> int
    decreases s.len() - i,
{
    if 0 <= i < s.len() && is_blank(s[i]) {
        skip_blanks(s, i + 1)
    } else {
        i
    }
}

/// The first position from `i` on that is not part of a bare key, or with
/// `dots` of a section name.
pub open spec fn skip_bare(s: Seq<char>, i: int, dots: bool) -> int
    decreases s.len() - i,
{
    if 0 <= i < s.len() && (if dots {
        is_name(s[i])
    } else {
        is_bare(s[i])
    }) {
        skip_bare(s, i + 1, dots)
    } else {
        i
    }
}

/// Whether a line ends at `i`, but for blanks and a comment.
pub open spec fn ends_at(s: Seq<char>, i: int) -> bool {
    let j = skip_blanks(s, i);
    j >= s.len() || s[j] == '#'
}

/// The character that an escape stands for.
pub open spec fn escape(c: char) -> Option<char> {
    if c == '"' || c == '\\' {
        Some(c)
    } else if c == 'n' {
        Some('\n')
    } else if c == 't' {
        Some('\t')
    } else if c == 'r' {
        Some('\r')
    } else {
        None
    }
}

/// A text whose opening quote stands before `i`, and the position behind its
/// closing quote.
pub open spec fn quoted(s: Seq<char>, i: int) -> Result<(Seq<char>, int), ParseErrorKind>
    decreases s.len() - i,
{
    if i < 0 || i >= s.len() {
        Err(ParseErrorKind::UnterminatedText)
    } else if s[i] == '"' {
        Ok((Seq::empty(), i + 1))
    } else if s[i] == '\\' {
        if i + 1 >= s.len() {
            Err(ParseErrorKind::UnterminatedText)
        } else {
            match escape(s[i + 1]) {
                None => Err(ParseErrorKind::BadEscape),
                Some(c) => match quoted(s, i + 2) {
                    Err(e) => Err(e),
                    Ok((rest, end)) => Ok((seq![c] + rest, end)),
                },
            }
        }
    } else {
        match quoted(s, i + 1) {
            Err(e) => Err(e),
            Ok((rest, end)) => Ok((seq![s[i]] + rest, end)),
        }
    }
}

/// The rest of a list from `i` on: its texts, and the position behind its
/// closing bracket.
pub open spec fn list_items(s: Seq<char>, i: int) -> Result<(Seq<Seq<char>>, int), ParseErrorKind>
    decreases s.len() - i,
{
    let j = skip_blanks(s, i);
    if j < i || j >= s.len() {
        Err(ParseErrorKind::BadValue)
    } else if s[j] == ']' {
        Ok((Seq::empty(), j + 1))
    } else if s[j] != '"' {
        Err(ParseErrorKind::BadValue)
    } else {
        match quoted(s, j + 1) {
            Err(e) => Err(e),
            Ok((item, end)) => {
                let k = skip_blanks(s, end);
                if end <= j || k < end || k >= s.len() {
                    Err(ParseErrorKind::BadValue)
                } else if s[k] == ']' {
                    Ok((seq![item], k + 1))
                } else if s[k] != ',' {
                    Err(ParseErrorKind::BadValue)
                } else {
                    match list_items(s, k + 1) {
                        Err(e) => Err(e),
                        Ok((rest, end)) => Ok((seq![item] + rest, end)),
                    }
                }
            },
        }
    }
}

/// The value at `i`, and the position behind it.
pub open spec fn value_from(s: Seq<char>, i: int) -> Result<(ValueView, int), ParseErrorKind> {
    if i >= s.len() {
        Err(ParseErrorKind::BadValue)
    } else if s[i] == '"' {
        match quoted(s, i + 1) {
            Err(e) => Err(e),
            Ok((text, end)) => Ok((ValueView::Text(text), end)),
        }
    } else if s[i] == '[' {
        match list_items(s, i + 1) {
            Err(e) => Err(e),
            Ok((items, end)) => Ok((ValueView::List(items), end)),
        }
    } else {
        Err(ParseErrorKind::BadValue)
    }
}

/// The key at `i`, and the position behind it.
pub open spec fn key_from(s: Seq<char>, i: int) -> Result<(Seq<char>, int), ParseErrorKind> {
    if s[i] == '"' {
        quoted(s, i + 1)
    } else {
        let end = skip_bare(s, i, false);
        if end == i {
            Err(ParseErrorKind::BadKey)
        } else {
            Ok((s.subrange(i, end), end))
        }
    }
}

/// What a line says.
pub enum LineView {
    Blank,
    Header(Seq<char>),
    Pair(EntryView),
}

/// What a line says, or what is wrong with it.
pub open spec fn line_view(s: Seq<char>) -> Result<LineView, ParseErrorKind> {
    let i = skip_blanks(s, 0);
    if i >= s.len() || s[i] == '#' {
        Ok(LineView::Blank)
    } else if s[i] == '[' {
        let end = skip_bare(s, i + 1, true);
        if end == i + 1 || end >= s.len() || s[end] != ']' {
            Err(ParseErrorKind::BadHeader)
        } else if !ends_at(s, end + 1) {
            Err(ParseErrorKind::TrailingText)
        } else {
            Ok(LineView::Header(s.subrange(i + 1, end)))
        }
    } else {
        match key_from(s, i) {
            Err(e) => Err(e),
            Ok((key, end)) => {
                let j = skip_blanks(s, end);
                if j >= s.len() || s[j] != '=' {
                    Err(ParseErrorKind::MissingEquals)
                } else {
                    match value_from(s, skip_blanks(s, j + 1)) {
                        Err(e) => Err(e),
                        Ok((value, end)) => if ends_at(s, end) {
                            Ok(LineView::Pair(EntryView { key, value }))
                        } else {
                            Err(ParseErrorKind::TrailingText)
                        },
                    }
                }
            },
        }
    }
}

/// A document after one more line.
pub open spec fn with_line(document: Seq<SectionView>, line: LineView) -> Result<
    Seq<SectionView>,
    ParseErrorKind,
> {
    match line {
        LineView::Blank => Ok(document),
        LineView::Header(name) => if find_section(document, name, 0) is Some {
            Err(ParseErrorKind::DuplicateSection)
        } else {
            Ok(document.push(SectionView { name, entries: Seq::empty() }))
        },
        LineView::Pair(entry) => if document.len() == 0 {
            Err(ParseErrorKind::EntryOutsideSection)
        } else if find_entry(document.last().entries, entry.key, 0) is Some {
            Err(ParseErrorKind::DuplicateKey)
        } else {
            Ok(
                document.drop_last().push(
                    SectionView {
                        name: document.last().name,
                        entries: document.last().entries.push(entry),
                    },
                ),
            )
        },
    }
}

/// Whether no two sections have the same name, and no two entries of a section
/// the same key.
pub open spec fn well_formed(document: Seq<SectionView>) -> bool {
    &&& forall|i: int, j: int|
        0 <= i < j < document.len() ==> (#[trigger] document[i]).name != (#[trigger] document[j]).name
    &&& forall|i: int| 0 <= i < document.len() ==> distinct_keys((#[trigger] document[i]).entries)
}

/// Whether no two entries have the same key.
pub open spec fn distinct_keys(entries: Seq<EntryView>) -> bool {
    forall|i: int, j: int|
        0 <= i < j < entries.len() ==> (#[trigger] entries[i]).key != (#[trigger] entries[j]).key
}

/// Where a section is not found, none has its name.
pub proof fn lemma_find_section(document: Seq<SectionView>, name: Seq<char>, i: int)
    requires
        0 <= i <= document.len(),
    ensures
        match find_section(document, name, i) {
            Some(k) => i <= k < document.len() && document[k].name == name && forall|j: int|
                i <= j < k ==> (#[trigger] document[j]).name != name,
            None => forall|j: int|
                i <= j < document.len() ==> (#[trigger] document[j]).name != name,
        },
    decreases document.len() - i,
{
    if i < document.len() && document[i].name != name {
        lemma_find_section(document, name, i + 1);
    }
}

/// Where an entry is not found, none has its key.
pub proof fn lemma_find_entry(entries: Seq<EntryView>, key: Seq<char>, i: int)
    requires
        0 <= i <= entries.len(),
    ensures
        match find_entry(entries, key, i) {
            Some(k) => i <= k < entries.len() && entries[k].key == key && forall|j: int|
                i <= j < k ==> (#[trigger] entries[j]).key != key,
            None => forall|j: int| i <= j < entries.len() ==> (#[trigger] entries[j]).key != key,
        },
    decreases entries.len() - i,
{
    if i < entries.len() && entries[i].key != key {
        lemma_find_entry(entries, key, i + 1);
    }
}

/// A line keeps a document well formed.
pub proof fn lemma_line_keeps_well_formed(document: Seq<SectionView>, line: LineView)
    requires
        well_formed(document),
    ensures
        with_line(document, line) matches Ok(next) ==> well_formed(next),
{
    match line {
        LineView::Header(name) => {
            lemma_find_section(document, name, 0);
        },
        LineView::Pair(entry) => {
            if document.len() > 0 {
                let last = document.last().entries;
                lemma_find_entry(last, entry.key, 0);
                assert(distinct_keys(document[document.len() - 1].entries));
                assert(find_entry(last, entry.key, 0) is None ==> distinct_keys(last.push(entry)));
            }
        },
        LineView::Blank => {},
    }
}

/// Where the line that starts at `i` ends.
pub open spec fn line_end(source: Seq<char>, i: int) -> int
    decreases source.len() - i,
{
    if 0 <= i < source.len() && source[i] != '\n' {
        line_end(source, i + 1)
    } else {
        i
    }
}

/// A line never ends before it starts.
pub proof fn lemma_line_end(source: Seq<char>, i: int)
    requires
        0 <= i <= source.len(),
    ensures
        i <= line_end(source, i) <= source.len(),
        line_end(source, i) < source.len() ==> source[line_end(source, i)] == '\n',
        forall|k: int| i <= k < line_end(source, i) ==> source[k] != '\n',
    decreases source.len() - i,
{
    if i < source.len() && source[i] != '\n' {
        lemma_line_end(source, i + 1);
    }
}

/// The document that `document` becomes with the lines from `i` on, of which the
/// first is line `number`.
pub open spec fn parsed_from(
    source: Seq<char>,
    i: int,
    number: int,
    document: Seq<SectionView>,
) -> Result<Seq<SectionView>, (int, ParseErrorKind)>
    decreases source.len() + 1 - i,
{
    let end = line_end(source, i);
    if i < 0 || end < i || end > source.len() {
        Ok(document)
    } else {
        match line_view(source.subrange(i, end)) {
            Err(kind) => Err((number, kind)),
            Ok(line) => match with_line(document, line) {
                Err(kind) => Err((number, kind)),
                Ok(next) => if end >= source.len() {
                    Ok(next)
                } else {
                    parsed_from(source, end + 1, number + 1, next)
                },
            },
        }
    }
}

/// The document that `source` is, or its first fault and the line of it.
pub open spec fn parsed(source: Seq<char>) -> Result<Seq<SectionView>, (int, ParseErrorKind)> {
    if source.len() >= usize::MAX {
        Err((1, ParseErrorKind::TooLong))
    } else {
        parsed_from(source, 0, 1, Seq::empty())
    }
}

// ---------------------------------------------------------------------------
// Reading a document.

proof fn lemma_skip_blanks(s: Seq<char>, i: int)
    requires
        0 <= i <= s.len(),
    ensures
        i <= skip_blanks(s, i) <= s.len(),
    decreases s.len() - i,
{
    if i < s.len() && is_blank(s[i]) {
        lemma_skip_blanks(s, i + 1);
    }
}

proof fn lemma_quoted(s: Seq<char>, i: int)
    requires
        0 <= i <= s.len(),
    ensures
        quoted(s, i) matches Ok((_, end)) ==> i < end <= s.len(),
    decreases s.len() - i,
{
    if i < s.len() && s[i] != '"' {
        if s[i] == '\\' {
            if i + 1 < s.len() {
                lemma_quoted(s, i + 2);
            }
        } else {
            lemma_quoted(s, i + 1);
        }
    }
}

fn skip_blanks_from(s: &[char], i: usize) -> (j: usize)
    requires
        i <= s@.len(),
    ensures
        j == skip_blanks(s@, i as int),
        i <= j <= s@.len(),
{
    let mut j: usize = i;
    while j < s.len() && (s[j] == ' ' || s[j] == '\t' || s[j] == '\r')
        invariant
            i <= j <= s@.len(),
            skip_blanks(s@, i as int) == skip_blanks(s@, j as int),
        decreases s@.len() - j,
    {
        j = j + 1;
    }
    j
}

fn bare(c: char) -> (r: bool)
    ensures
        r == is_bare(c),
{
    ('a' <= c && c <= 'z') || ('A' <= c && c <= 'Z') || ('0' <= c && c <= '9') || c == '-' || c
        == '_'
}

fn skip_bare_from(s: &[char], i: usize, dots: bool) -> (j: usize)
    requires
        i <= s@.len(),
    ensures
        j == skip_bare(s@, i as int, dots),
        i <= j <= s@.len(),
{
    let mut j: usize = i;
    while j < s.len() && (bare(s[j]) || (dots && s[j] == '.'))
        invariant
            i <= j <= s@.len(),
            skip_bare(s@, i as int, dots) == skip_bare(s@, j as int, dots),
        decreases s@.len() - j,
    {
        j = j + 1;
    }
    j
}

fn line_ends(s: &[char], i: usize) -> (r: bool)
    requires
        i <= s@.len(),
    ensures
        r == ends_at(s@, i as int),
{
    let j: usize = skip_blanks_from(s, i);
    j >= s.len() || s[j] == '#'
}

fn unescaped(c: char) -> (r: Option<char>)
    ensures
        r == escape(c),
{
    if c == '"' || c == '\\' {
        Some(c)
    } else if c == 'n' {
        Some('\n')
    } else if c == 't' {
        Some('\t')
    } else if c == 'r' {
        Some('\r')
    } else {
        None
    }
}

fn read_quoted(s: &[char], start: usize) -> (r: Result<(String, usize), ParseErrorKind>)
    requires
        start <= s@.len(),
    ensures
        match quoted(s@, start as int) {
            Err(e) => r matches Err(f) && f == e,
            Ok((text, end)) => r matches Ok((t, j)) && t@ == text && j == end && start < end
                <= s@.len(),
        },
{
    let ghost whole = quoted(s@, start as int);
    proof {
        lemma_quoted(s@, start as int);
    }
    let mut text: String = String::new();
    let mut i: usize = start;
    assert(text@ =~= Seq::<char>::empty());
    proof {
        if let Ok((t, e)) = whole {
            assert(t =~= text@ + t);
        }
    }
    while i < s.len()
        invariant
            start <= i <= s@.len(),
            whole == quoted(s@, start as int),
            whole matches Ok((_, end)) ==> start < end <= s@.len(),
            match quoted(s@, i as int) {
                Err(e) => whole == Err::<(Seq<char>, int), ParseErrorKind>(e),
                Ok((rest, end)) => whole == Ok::<(Seq<char>, int), ParseErrorKind>(
                    (text@ + rest, end),
                ),
            },
        decreases s@.len() - i,
    {
        let c: char = s[i];
        if c == '"' {
            assert(text@ + Seq::<char>::empty() =~= text@);
            return Ok((text, i + 1));
        }
        let ghost before = text@;
        if c == '\\' {
            if i + 1 >= s.len() {
                return Err(ParseErrorKind::UnterminatedText);
            }
            match unescaped(s[i + 1]) {
                None => {
                    return Err(ParseErrorKind::BadEscape);
                },
                Some(d) => {
                    strings::push_char(&mut text, d);
                    proof {
                        if let Ok((rest, end)) = quoted(s@, i + 2) {
                            assert(before + (seq![d] + rest) =~= text@ + rest);
                        }
                    }
                },
            }
            i = i + 2;
        } else {
            strings::push_char(&mut text, c);
            proof {
                if let Ok((rest, end)) = quoted(s@, i + 1) {
                    assert(before + (seq![c] + rest) =~= text@ + rest);
                }
            }
            i = i + 1;
        }
    }
    Err(ParseErrorKind::UnterminatedText)
}

fn read_list(s: &[char], start: usize) -> (r: Result<(Vec<String>, usize), ParseErrorKind>)
    requires
        start <= s@.len(),
    ensures
        match list_items(s@, start as int) {
            Err(e) => r matches Err(f) && f == e,
            Ok((items, end)) => r matches Ok((v, j)) && texts(v@) == items && j == end && start
                < end <= s@.len(),
        },
{
    let ghost whole = list_items(s@, start as int);
    let mut items: Vec<String> = Vec::new();
    let mut i: usize = start;
    assert(texts(items@) =~= Seq::<Seq<char>>::empty());
    proof {
        if let Ok((t, e)) = whole {
            assert(t =~= texts(items@) + t);
        }
    }
    loop
        invariant
            start <= i <= s@.len(),
            whole == list_items(s@, start as int),
            match list_items(s@, i as int) {
                Err(e) => whole == Err::<(Seq<Seq<char>>, int), ParseErrorKind>(e),
                Ok((rest, end)) => whole == Ok::<(Seq<Seq<char>>, int), ParseErrorKind>(
                    (texts(items@) + rest, end),
                ),
            },
        decreases s@.len() - i,
    {
        let j: usize = skip_blanks_from(s, i);
        if j >= s.len() {
            return Err(ParseErrorKind::BadValue);
        }
        if s[j] == ']' {
            assert(texts(items@) + Seq::<Seq<char>>::empty() =~= texts(items@));
            return Ok((items, j + 1));
        }
        if s[j] != '"' {
            return Err(ParseErrorKind::BadValue);
        }
        let (item, end) = match read_quoted(s, j + 1) {
            Ok(found) => found,
            Err(e) => {
                return Err(e);
            },
        };
        let k: usize = skip_blanks_from(s, end);
        if k >= s.len() {
            return Err(ParseErrorKind::BadValue);
        }
        let ghost before = texts(items@);
        let ghost text = item@;
        items.push(item);
        assert(texts(items@) =~= before.push(text));
        if s[k] == ']' {
            assert(before + seq![text] =~= texts(items@));
            return Ok((items, k + 1));
        }
        if s[k] != ',' {
            return Err(ParseErrorKind::BadValue);
        }
        proof {
            if let Ok((rest, e)) = list_items(s@, k + 1) {
                assert(before + (seq![text] + rest) =~= texts(items@) + rest);
            }
        }
        i = k + 1;
    }
}

fn read_value(s: &[char], i: usize) -> (r: Result<(Value, usize), ParseErrorKind>)
    requires
        i <= s@.len(),
    ensures
        match value_from(s@, i as int) {
            Err(e) => r matches Err(f) && f == e,
            Ok((value, end)) => r matches Ok((v, j)) && v.view() == value && j == end && end
                <= s@.len(),
        },
{
    if i >= s.len() {
        return Err(ParseErrorKind::BadValue);
    }
    if s[i] == '"' {
        match read_quoted(s, i + 1) {
            Ok((text, end)) => Ok((Value::Text(text), end)),
            Err(e) => Err(e),
        }
    } else if s[i] == '[' {
        match read_list(s, i + 1) {
            Ok((items, end)) => Ok((Value::List(items), end)),
            Err(e) => Err(e),
        }
    } else {
        Err(ParseErrorKind::BadValue)
    }
}

fn read_key(s: &[char], i: usize) -> (r: Result<(String, usize), ParseErrorKind>)
    requires
        i < s@.len(),
    ensures
        match key_from(s@, i as int) {
            Err(e) => r matches Err(f) && f == e,
            Ok((key, end)) => r matches Ok((k, j)) && k@ == key && j == end && end <= s@.len(),
        },
{
    if s[i] == '"' {
        return read_quoted(s, i + 1);
    }
    let end: usize = skip_bare_from(s, i, false);
    if end == i {
        return Err(ParseErrorKind::BadKey);
    }
    Ok((strings::string_of(vstd::slice::slice_subrange(s, i, end)), end))
}

/// What a line says.
enum Line {
    Blank,
    Header(String),
    Pair(Entry),
}

impl Line {
    spec fn view(&self) -> LineView {
        match *self {
            Line::Blank => LineView::Blank,
            Line::Header(name) => LineView::Header(name@),
            Line::Pair(entry) => LineView::Pair(entry.view()),
        }
    }
}

fn read_line(s: &[char]) -> (r: Result<Line, ParseErrorKind>)
    ensures
        match line_view(s@) {
            Err(e) => r matches Err(f) && f == e,
            Ok(line) => r matches Ok(l) && l.view() == line,
        },
{
    let i: usize = skip_blanks_from(s, 0);
    if i >= s.len() || s[i] == '#' {
        return Ok(Line::Blank);
    }
    if s[i] == '[' {
        let end: usize = skip_bare_from(s, i + 1, true);
        if end == i + 1 || end >= s.len() || s[end] != ']' {
            return Err(ParseErrorKind::BadHeader);
        }
        if !line_ends(s, end + 1) {
            return Err(ParseErrorKind::TrailingText);
        }
        return Ok(Line::Header(strings::string_of(vstd::slice::slice_subrange(s, i + 1, end))));
    }
    let (key, end) = match read_key(s, i) {
        Ok(found) => found,
        Err(e) => {
            return Err(e);
        },
    };
    let j: usize = skip_blanks_from(s, end);
    if j >= s.len() || s[j] != '=' {
        return Err(ParseErrorKind::MissingEquals);
    }
    let (value, end) = match read_value(s, skip_blanks_from(s, j + 1)) {
        Ok(found) => found,
        Err(e) => {
            return Err(e);
        },
    };
    if !line_ends(s, end) {
        return Err(ParseErrorKind::TrailingText);
    }
    Ok(Line::Pair(Entry { key, value }))
}

/// Adds what a line says.
fn add_line(sections: &mut Vec<Section>, line: Line) -> (r: Result<(), ParseErrorKind>)
    ensures
        match with_line(section_views(old(sections)@), line.view()) {
            Err(e) => r matches Err(f) && f == e,
            Ok(next) => r is Ok && section_views(final(sections)@) == next,
        },
{
    let ghost before = section_views(sections@);
    match line {
        Line::Blank => Ok(()),
        Line::Header(name) => {
            if position_of(sections.as_slice(), name.as_str()).is_some() {
                return Err(ParseErrorKind::DuplicateSection);
            }
            let ghost header = name@;
            let section = Section { name, entries: Vec::new() };
            assert(section.view().entries =~= Seq::<EntryView>::empty());
            sections.push(section);
            assert(section_views(sections@) =~= before.push(
                SectionView { name: header, entries: Seq::empty() },
            ));
            Ok(())
        },
        Line::Pair(entry) => {
            let n: usize = sections.len();
            if n == 0 {
                return Err(ParseErrorKind::EntryOutsideSection);
            }
            let ghost views = before.last().entries;
            let last: &Section = &sections[n - 1];
            let mut i: usize = 0;
            while i < last.entries.len()
                invariant
                    i <= last.entries@.len(),
                    views == entry_views(last.entries@),
                    find_entry(views, entry.key@, 0) == find_entry(
                        views,
                        entry.key@,
                        i as int,
                    ),
                    before.len() > 0,
                    before == section_views(old(sections)@),
                    before.last().entries == views,
                    line.view() == LineView::Pair(entry.view()),
                decreases last.entries@.len() - i,
            {
                if strings::same_text(last.entries[i].key.as_str(), entry.key.as_str()) {
                    return Err(ParseErrorKind::DuplicateKey);
                }
                i = i + 1;
            }
            let ghost added = entry.view();
            let Some(mut section) = sections.pop() else {
                return Err(ParseErrorKind::EntryOutsideSection);
            };
            section.entries.push(entry);
            assert(section.view().entries =~= views.push(added));
            sections.push(section);
            assert(section_views(sections@) =~= before.drop_last().push(
                SectionView { name: before.last().name, entries: views.push(added) },
            ));
            Ok(())
        },
    }
}

/// Reads a document, or names its first fault and the line of it.
pub fn parse(source: &str) -> (r: Result<Document, ParseError>)
    ensures
        match parsed(source@) {
            Ok(document) => r matches Ok(d) && d@ == document && well_formed(d@),
            Err((line, kind)) => r matches Err(e) && e.line == line && e.kind == kind,
        },
{
    let chars = strings::chars_of(source);
    if chars.len() == usize::MAX {
        return Err(ParseError { line: 1, kind: ParseErrorKind::TooLong });
    }
    let mut sections: Vec<Section> = Vec::new();
    assert(section_views(sections@) =~= Seq::<SectionView>::empty());
    let mut number: usize = 1;
    let mut i: usize = 0;
    loop
        invariant
            chars@ == source@,
            chars@.len() < usize::MAX,
            i <= chars@.len(),
            1 <= number <= i + 1,
            well_formed(section_views(sections@)),
            parsed(source@) == parsed_from(
                source@,
                i as int,
                number as int,
                section_views(sections@),
            ),
        decreases chars@.len() - i,
    {
        let mut end: usize = i;
        while end < chars.len() && chars[end] != '\n'
            invariant
                i <= end <= chars@.len(),
                line_end(chars@, i as int) == line_end(chars@, end as int),
            decreases chars@.len() - end,
        {
            end = end + 1;
        }
        let ghost before = section_views(sections@);
        let line = match read_line(vstd::slice::slice_subrange(chars.as_slice(), i, end)) {
            Ok(line) => line,
            Err(kind) => {
                return Err(ParseError { line: number, kind });
            },
        };
        proof {
            lemma_line_keeps_well_formed(before, line.view());
        }
        match add_line(&mut sections, line) {
            Ok(()) => {},
            Err(kind) => {
                return Err(ParseError { line: number, kind });
            },
        }
        if end >= chars.len() {
            return Ok(Document { sections });
        }
        i = end + 1;
        number = number + 1;
    }
}

} // verus!
