//! What a document in the configuration language says.

use crate::config;
use crate::config::{EntryView, LineView, ParseErrorKind, SectionView, ValueView};
use vstd::prelude::*;

verus! {

// ---------------------------------------------------------------------------
// Texts.

/// A character as it is written in a text: a quote, a backslash, a line break, a tab and a
/// carriage return are escaped, and every other stands for itself.
pub open spec fn written_char(c: char) -> Seq<char> {
    if c == '"' {
        seq!['\\', '"']
    } else if c == '\\' {
        seq!['\\', '\\']
    } else if c == '\n' {
        seq!['\\', 'n']
    } else if c == '\t' {
        seq!['\\', 't']
    } else if c == '\r' {
        seq!['\\', 'r']
    } else {
        seq![c]
    }
}

/// A text as it is written, without its quotes.
pub open spec fn written(text: Seq<char>) -> Seq<char>
    decreases text.len(),
{
    if text.len() == 0 {
        Seq::empty()
    } else {
        written_char(text[0]) + written(text.skip(1))
    }
}

/// A text in quotes.
pub open spec fn in_quotes(text: Seq<char>) -> Seq<char> {
    seq!['"'] + written(text) + seq!['"']
}

/// Whether a part stands in a line at `i`.
pub open spec fn stands(s: Seq<char>, i: int, part: Seq<char>) -> bool {
    0 <= i && i + part.len() <= s.len() && s.subrange(i, i + part.len()) == part
}

proof fn lemma_parts(s: Seq<char>, i: int, a: Seq<char>, b: Seq<char>)
    requires
        stands(s, i, a + b),
    ensures
        stands(s, i, a),
        stands(s, i + a.len(), b),
{
    let whole = a + b;
    let part = s.subrange(i, i + whole.len());
    assert(s.subrange(i, i + a.len()) =~= part.take(a.len() as int));
    assert(whole.take(a.len() as int) =~= a);
    assert(s.subrange(i + a.len(), i + whole.len()) =~= part.skip(a.len() as int));
    assert(whole.skip(a.len() as int) =~= b);
}

proof fn lemma_one(s: Seq<char>, i: int, c: char)
    requires
        stands(s, i, seq![c]),
    ensures
        s[i] == c,
{
    assert(s.subrange(i, i + 1)[0] == s[i]);
}

/// A text reads back as it was written, whatever it holds.
pub proof fn texts_read_back(s: Seq<char>, i: int, text: Seq<char>)
    requires
        stands(s, i, written(text) + seq!['"']),
    ensures
        config::quoted(s, i) == Ok::<(Seq<char>, int), ParseErrorKind>(
            (text, i + written(text).len() + 1),
        ),
    decreases text.len(),
{
    let end = seq!['"'];
    if text.len() == 0 {
        assert(written(text) + end =~= end);
        lemma_one(s, i, '"');
        assert(text =~= Seq::<char>::empty());
    } else {
        let c = text[0];
        let rest = text.skip(1);
        let first = written_char(c);
        assert(written(text) + end =~= first + (written(rest) + end));
        lemma_parts(s, i, first, written(rest) + end);
        texts_read_back(s, i + first.len(), rest);
        assert(seq![c] + rest =~= text);
        assert(s.subrange(i, i + first.len())[0] == s[i]);
        if first.len() == 2 {
            assert(s.subrange(i, i + 2)[1] == s[i + 1]);
        }
    }
}

// ---------------------------------------------------------------------------
// Lines.

/// Blanks.
pub open spec fn blank(s: Seq<char>) -> bool {
    forall|i: int| 0 <= i < s.len() ==> (#[trigger] s[i] == ' ' || s[i] == '\t')
}

/// What may stand at the end of a line: blanks, and a comment behind them.
pub open spec fn line_rest(s: Seq<char>) -> bool {
    blank(s) || exists|k: int| 0 <= k < s.len() && #[trigger] s[k] == '#' && blank(s.take(k))
}

proof fn lemma_skip(s: Seq<char>, i: int, gap: Seq<char>)
    requires
        stands(s, i, gap),
        blank(gap),
    ensures
        config::skip_blanks(s, i) == config::skip_blanks(s, i + gap.len()),
    decreases gap.len(),
{
    if gap.len() > 0 {
        let rest = gap.skip(1);
        assert(s.subrange(i, i + gap.len())[0] == s[i]);
        assert(gap =~= seq![gap[0]] + rest);
        lemma_parts(s, i, seq![gap[0]], rest);
        assert forall|k: int| 0 <= k < rest.len() implies (#[trigger] rest[k] == ' ' || rest[k]
            == '\t') by {
            assert(rest[k] == gap[k + 1]);
        }
        lemma_skip(s, i + 1, rest);
    }
}

proof fn lemma_ends(s: Seq<char>, i: int)
    requires
        0 <= i <= s.len(),
        line_rest(s.skip(i)),
    ensures
        config::ends_at(s, i),
{
    let rest = s.skip(i);
    if blank(rest) {
        assert(s.subrange(i, s.len() as int) =~= rest);
        lemma_skip(s, i, rest);
    } else {
        let k = choose|k: int| 0 <= k < rest.len() && #[trigger] rest[k] == '#' && blank(rest.take(k));
        assert(s.subrange(i, i + k) =~= rest.take(k));
        lemma_skip(s, i, rest.take(k));
        assert(s[i + k] == rest[k]);
    }
}

/// A line of blanks and a comment says nothing.
pub proof fn comments_say_nothing(s: Seq<char>)
    requires
        line_rest(s),
    ensures
        config::line_view(s) == Ok::<LineView, ParseErrorKind>(LineView::Blank),
{
    assert(s.skip(0) =~= s);
    lemma_ends(s, 0);
}

/// A line with a key and a text says that the key is set to the text, whatever both hold:
/// with any blanks around the equals sign, and a comment at the end.
pub proof fn pairs_read_back(
    key: Seq<char>,
    value: Seq<char>,
    a: Seq<char>,
    b: Seq<char>,
    c: Seq<char>,
    end: Seq<char>,
)
    requires
        blank(a),
        blank(b),
        blank(c),
        line_rest(end),
    ensures
        config::line_view(
            a + (in_quotes(key) + (b + (seq!['='] + (c + (in_quotes(value) + end))))),
        ) == Ok::<LineView, ParseErrorKind>(
            LineView::Pair(EntryView { key, value: ValueView::Text(value) }),
        ),
{
    let s = a + (in_quotes(key) + (b + (seq!['='] + (c + (in_quotes(value) + end)))));
    let (i, j) = lemma_up_to_value(s, key, a, b, c, in_quotes(value) + end);
    lemma_parts(s, j, in_quotes(value), end);
    assert(in_quotes(value) =~= seq!['"'] + (written(value) + seq!['"']));
    lemma_parts(s, j, seq!['"'], written(value) + seq!['"']);
    lemma_one(s, j, '"');
    texts_read_back(s, j + 1, value);
    let after = j + in_quotes(value).len();
    assert(s.skip(after) =~= end) by {
        assert(s.subrange(after, after + end.len()) == end);
    }
    lemma_ends(s, after);
    assert(config::skip_blanks(s, j) == j);
}

/// Where the value of a line starts, and that everything before it is read.
proof fn lemma_up_to_value(
    s: Seq<char>,
    key: Seq<char>,
    a: Seq<char>,
    b: Seq<char>,
    c: Seq<char>,
    rest: Seq<char>,
) -> (r: (int, int))
    requires
        s == a + (in_quotes(key) + (b + (seq!['='] + (c + rest)))),
        blank(a),
        blank(b),
        blank(c),
        rest.len() > 0,
        rest[0] == '"' || rest[0] == '[',
    ensures
        r.0 == a.len(),
        stands(s, r.1, rest),
        r.1 + rest.len() == s.len(),
        config::skip_blanks(s, 0) == r.0,
        s[r.0] == '"',
        config::key_from(s, r.0) is Ok,
        ({
            let (k, end) = config::key_from(s, r.0)->Ok_0;
            let eq = config::skip_blanks(s, end);
            &&& k == key
            &&& eq < s.len() && s[eq] == '='
            &&& config::skip_blanks(s, eq + 1) == r.1
        }),
{
    let tail = c + rest;
    let n = a.len() as int;
    assert(s.subrange(0, s.len() as int) =~= s);
    lemma_parts(s, 0, a, in_quotes(key) + (b + (seq!['='] + tail)));
    lemma_parts(s, n, in_quotes(key), b + (seq!['='] + tail));
    assert(in_quotes(key) =~= seq!['"'] + (written(key) + seq!['"']));
    lemma_parts(s, n, seq!['"'], written(key) + seq!['"']);
    lemma_one(s, n, '"');
    lemma_skip(s, 0, a);
    assert(config::skip_blanks(s, n) == n);
    texts_read_back(s, n + 1, key);
    let end = n + in_quotes(key).len();
    lemma_parts(s, end, b, seq!['='] + tail);
    lemma_skip(s, end, b);
    let eq = end + b.len();
    lemma_parts(s, eq, seq!['='], tail);
    lemma_one(s, eq, '=');
    assert(config::skip_blanks(s, eq) == eq);
    lemma_parts(s, eq + 1, c, rest);
    lemma_skip(s, eq + 1, c);
    let j = eq + 1 + c.len();
    assert(s.subrange(j, j + rest.len())[0] == s[j]);
    assert(config::skip_blanks(s, j) == j);
    (n, j)
}

/// The items of a list as they are written, with a comma and a blank between two.
pub open spec fn items(texts: Seq<Seq<char>>) -> Seq<char>
    decreases texts.len(),
{
    if texts.len() == 0 {
        seq![']']
    } else if texts.len() == 1 {
        in_quotes(texts[0]) + seq![']']
    } else {
        in_quotes(texts[0]) + (seq![',', ' '] + items(texts.skip(1)))
    }
}

/// The items of a list read back, whatever they hold.
pub proof fn items_read_back(s: Seq<char>, i: int, texts: Seq<Seq<char>>)
    requires
        stands(s, i, items(texts)),
    ensures
        config::list_items(s, i) == Ok::<(Seq<Seq<char>>, int), ParseErrorKind>(
            (texts, i + items(texts).len()),
        ),
    decreases texts.len(),
{
    if texts.len() == 0 {
        lemma_one(s, i, ']');
        assert(config::skip_blanks(s, i) == i);
        assert(texts =~= Seq::<Seq<char>>::empty());
    } else {
        let text = texts[0];
        let q = in_quotes(text);
        let behind = if texts.len() == 1 {
            seq![']']
        } else {
            seq![',', ' '] + items(texts.skip(1))
        };
        lemma_parts(s, i, q, behind);
        assert(q =~= seq!['"'] + (written(text) + seq!['"']));
        lemma_parts(s, i, seq!['"'], written(text) + seq!['"']);
        lemma_one(s, i, '"');
        assert(config::skip_blanks(s, i) == i);
        texts_read_back(s, i + 1, text);
        let end = i + q.len();
        if texts.len() == 1 {
            lemma_one(s, end, ']');
            assert(config::skip_blanks(s, end) == end);
            assert(texts =~= seq![text]);
        } else {
            let more = items(texts.skip(1));
            assert(seq![',', ' '] + more =~= seq![','] + (seq![' '] + more));
            lemma_parts(s, end, seq![','], seq![' '] + more);
            lemma_parts(s, end + 1, seq![' '], more);
            lemma_one(s, end, ',');
            lemma_one(s, end + 1, ' ');
            assert(config::skip_blanks(s, end) == end);
            items_read_back(s, end + 2, texts.skip(1));
            lemma_list_from_blank(s, end + 1);
            assert(texts =~= seq![text] + texts.skip(1));
        }
    }
}

/// A blank before the items of a list says nothing.
proof fn lemma_list_from_blank(s: Seq<char>, i: int)
    requires
        0 <= i < s.len(),
        s[i] == ' ',
        config::list_items(s, i + 1) is Ok,
    ensures
        config::list_items(s, i) == config::list_items(s, i + 1),
{
    assert(config::skip_blanks(s, i) == config::skip_blanks(s, i + 1));
}

/// A line with a key and a list says that the key is set to the list, whatever it holds.
pub proof fn lists_read_back(key: Seq<char>, texts: Seq<Seq<char>>, end: Seq<char>)
    requires
        line_rest(end),
    ensures
        config::line_view(in_quotes(key) + (seq![' ', '=', ' '] + (seq!['['] + items(texts) + end)))
            == Ok::<LineView, ParseErrorKind>(
            LineView::Pair(EntryView { key, value: ValueView::List(texts) }),
        ),
{
    let none = Seq::<char>::empty();
    let gap = seq![' '];
    let value = seq!['['] + items(texts);
    let line = in_quotes(key) + (seq![' ', '=', ' '] + (value + end));
    let s = none + (in_quotes(key) + (gap + (seq!['='] + (gap + (value + end)))));
    assert(line =~= s);
    let (i, j) = lemma_up_to_value(s, key, none, gap, gap, value + end);
    lemma_parts(s, j, value, end);
    lemma_parts(s, j, seq!['['], items(texts));
    lemma_one(s, j, '[');
    items_read_back(s, j + 1, texts);
    let after = j + value.len();
    assert(s.skip(after) =~= end) by {
        assert(s.subrange(after, after + end.len()) == end);
    }
    lemma_ends(s, after);
}

// ---------------------------------------------------------------------------
// Faults.

/// The number of line breaks before `i`.
pub open spec fn breaks(s: Seq<char>, i: int) -> int
    decreases i,
{
    if i <= 0 {
        0
    } else {
        breaks(s, i - 1) + (if s[i - 1] == '\n' {
            1int
        } else {
            0
        })
    }
}

/// Whether a line starts at `i` and ends before `end`.
pub open spec fn is_line(s: Seq<char>, i: int, end: int) -> bool {
    &&& 0 <= i <= end <= s.len()
    &&& i == 0 || s[i - 1] == '\n'
    &&& end == s.len() || s[end] == '\n'
    &&& forall|k: int| i <= k < end ==> #[trigger] s[k] != '\n'
}

proof fn lemma_breaks(s: Seq<char>, i: int, end: int)
    requires
        0 <= i <= end <= s.len(),
        forall|k: int| i <= k < end ==> #[trigger] s[k] != '\n',
    ensures
        breaks(s, end) == breaks(s, i),
    decreases end - i,
{
    if i < end {
        lemma_breaks(s, i, end - 1);
        assert(s[end - 1] != '\n');
    }
}

/// Whether a document is refused for a line.
pub open spec fn refused_for(document: Seq<SectionView>, line: Seq<char>, kind: ParseErrorKind) -> bool {
    match config::line_view(line) {
        Err(k) => k == kind,
        Ok(read) => config::with_line(document, read) == Err::<Seq<SectionView>, ParseErrorKind>(kind),
    }
}

/// Whether a fault is that of a line, with its number counted from one.
pub open spec fn is_fault_of_line(s: Seq<char>, i: int, number: int, kind: ParseErrorKind) -> bool {
    &&& number == breaks(s, i) + 1
    &&& exists|end: int, document: Seq<SectionView>|
        #[trigger] is_line(s, i, end) && #[trigger] refused_for(document, s.subrange(i, end), kind)
}

/// Whether a fault is that of some line.
pub open spec fn is_fault_of_some_line(s: Seq<char>, number: int, kind: ParseErrorKind) -> bool {
    exists|i: int| #[trigger] is_fault_of_line(s, i, number, kind)
}

proof fn lemma_faults(
    s: Seq<char>,
    i: int,
    number: int,
    document: Seq<SectionView>,
    n: int,
    kind: ParseErrorKind,
)
    requires
        0 <= i <= s.len(),
        i == 0 || s[i - 1] == '\n',
        number == breaks(s, i) + 1,
        config::parsed_from(s, i, number, document) == Err::<
            Seq<SectionView>,
            (int, ParseErrorKind),
        >((n, kind)),
    ensures
        is_fault_of_some_line(s, n, kind),
    decreases s.len() + 1 - i,
{
    config::lemma_line_end(s, i);
    let end = config::line_end(s, i);
    let line = s.subrange(i, end);
    assert(is_line(s, i, end));
    if refused_for(document, line, kind) && number == n {
        assert(is_fault_of_line(s, i, number, kind));
    } else {
        let next = config::with_line(document, config::line_view(line)->Ok_0)->Ok_0;
        lemma_breaks(s, i, end);
        assert(breaks(s, end + 1) == breaks(s, end) + 1);
        lemma_faults(s, end + 1, number + 1, next, n, kind);
    }
}

/// A fault of a document names the line that has it, counted from one by the line breaks
/// before it.
pub proof fn faults_name_their_line(source: Seq<char>)
    requires
        source.len() < usize::MAX,
    ensures
        match config::parsed(source) {
            Err((n, kind)) => is_fault_of_some_line(source, n, kind),
            Ok(_) => true,
        },
{
    if let Err((n, kind)) = config::parsed(source) {
        lemma_faults(source, 0, 1, Seq::empty(), n, kind);
    }
}

// ---------------------------------------------------------------------------
// Names, and what lines make of a document.

/// Whether a text is made of ASCII letters, digits, hyphens and low lines, or with `dots`
/// of full stops too.
pub open spec fn bare(text: Seq<char>, dots: bool) -> bool {
    &&& text.len() > 0
    &&& forall|i: int|
        0 <= i < text.len() ==> ({
            let c = #[trigger] text[i];
            ||| 'a' <= c && c <= 'z'
            ||| 'A' <= c && c <= 'Z'
            ||| '0' <= c && c <= '9'
            ||| c == '-'
            ||| c == '_'
            ||| dots && c == '.'
        })
}

proof fn lemma_skip_bare(s: Seq<char>, i: int, text: Seq<char>, k: int, dots: bool)
    requires
        stands(s, i, text),
        bare(text, dots),
        0 <= k <= text.len(),
        i + text.len() < s.len(),
        ({
            let c = s[i + text.len()];
            c == ' ' || c == '\t' || c == '=' || c == ']'
        }),
    ensures
        config::skip_bare(s, i + k, dots) == i + text.len(),
    decreases text.len() - k,
{
    if k < text.len() {
        assert(s.subrange(i, i + text.len())[k] == s[i + k]);
        lemma_skip_bare(s, i, text, k + 1, dots);
    }
}

/// A key that is made of letters, digits, hyphens and low lines needs no quotes.
pub proof fn bare_keys_read_back(
    key: Seq<char>,
    value: Seq<char>,
    a: Seq<char>,
    b: Seq<char>,
    c: Seq<char>,
    end: Seq<char>,
)
    requires
        bare(key, false),
        blank(a),
        blank(b),
        blank(c),
        line_rest(end),
    ensures
        config::line_view(
            a + (key + (b + (seq!['='] + (c + (in_quotes(value) + end))))),
        ) == Ok::<LineView, ParseErrorKind>(
            LineView::Pair(EntryView { key, value: ValueView::Text(value) }),
        ),
{
    let s = a + (key + (b + (seq!['='] + (c + (in_quotes(value) + end)))));
    let (i, j) = lemma_up_to_bare_value(s, key, a, b, c, in_quotes(value) + end);
    lemma_parts(s, j, in_quotes(value), end);
    assert(in_quotes(value) =~= seq!['"'] + (written(value) + seq!['"']));
    lemma_parts(s, j, seq!['"'], written(value) + seq!['"']);
    lemma_one(s, j, '"');
    texts_read_back(s, j + 1, value);
    let after = j + in_quotes(value).len();
    assert(s.skip(after) =~= end) by {
        assert(s.subrange(after, after + end.len()) == end);
    }
    lemma_ends(s, after);
    assert(config::skip_blanks(s, j) == j);
}

/// Where the value of a line with a bare key starts, and that everything before it is read.
proof fn lemma_up_to_bare_value(
    s: Seq<char>,
    key: Seq<char>,
    a: Seq<char>,
    b: Seq<char>,
    c: Seq<char>,
    rest: Seq<char>,
) -> (r: (int, int))
    requires
        s == a + (key + (b + (seq!['='] + (c + rest)))),
        bare(key, false),
        blank(a),
        blank(b),
        blank(c),
        rest.len() > 0,
        rest[0] == '"' || rest[0] == '[',
    ensures
        r.0 == a.len(),
        stands(s, r.1, rest),
        r.1 + rest.len() == s.len(),
        config::skip_blanks(s, 0) == r.0,
        s[r.0] != '#' && s[r.0] != '[',
        config::key_from(s, r.0) is Ok,
        ({
            let (k, end) = config::key_from(s, r.0)->Ok_0;
            let eq = config::skip_blanks(s, end);
            &&& k == key
            &&& eq < s.len() && s[eq] == '='
            &&& config::skip_blanks(s, eq + 1) == r.1
        }),
{
    let tail = c + rest;
    let n = a.len() as int;
    assert(s.subrange(0, s.len() as int) =~= s);
    lemma_parts(s, 0, a, key + (b + (seq!['='] + tail)));
    lemma_parts(s, n, key, b + (seq!['='] + tail));
    assert(s.subrange(n, n + key.len())[0] == s[n]);
    assert(key[0] == s[n]);
    lemma_skip(s, 0, a);
    assert(config::skip_blanks(s, n) == n);
    let end = n + key.len();
    lemma_parts(s, end, b, seq!['='] + tail);
    let eq = end + b.len();
    lemma_parts(s, eq, seq!['='], tail);
    lemma_one(s, eq, '=');
    if b.len() > 0 {
        assert(s.subrange(end, end + b.len())[0] == s[end]);
        assert(b[0] == s[end]);
    }
    lemma_skip_bare(s, n, key, 0, false);
    lemma_skip(s, end, b);
    assert(config::skip_blanks(s, eq) == eq);
    lemma_parts(s, eq + 1, c, rest);
    lemma_skip(s, eq + 1, c);
    let j = eq + 1 + c.len();
    assert(s.subrange(j, j + rest.len())[0] == s[j]);
    assert(config::skip_blanks(s, j) == j);
    (n, j)
}

/// A line with a name in square brackets starts the section of that name, with any blanks
/// in front and a comment at the end.
pub proof fn headers_read_back(name: Seq<char>, a: Seq<char>, end: Seq<char>)
    requires
        bare(name, true),
        blank(a),
        line_rest(end),
    ensures
        config::line_view(a + (seq!['['] + (name + (seq![']'] + end)))) == Ok::<
            LineView,
            ParseErrorKind,
        >(LineView::Header(name)),
{
    let s = a + (seq!['['] + (name + (seq![']'] + end)));
    let n = a.len() as int;
    assert(s.subrange(0, s.len() as int) =~= s);
    lemma_parts(s, 0, a, seq!['['] + (name + (seq![']'] + end)));
    lemma_parts(s, n, seq!['['], name + (seq![']'] + end));
    lemma_one(s, n, '[');
    lemma_parts(s, n + 1, name, seq![']'] + end);
    let close = n + 1 + name.len();
    lemma_parts(s, close, seq![']'], end);
    lemma_one(s, close, ']');
    lemma_skip(s, 0, a);
    assert(config::skip_blanks(s, n) == n);
    lemma_skip_bare(s, n + 1, name, 0, true);
    assert(s.skip(close + 1) =~= end) by {
        assert(s.subrange(close + 1, close + 1 + end.len()) == end);
    }
    lemma_ends(s, close + 1);
}

/// A header starts a section that says nothing yet, unless there is one of its name.
pub proof fn headers_start_sections(document: Seq<SectionView>, name: Seq<char>)
    ensures
        config::with_line(document, LineView::Header(name)) == if exists|i: int|
            0 <= i < document.len() && (#[trigger] document[i]).name == name {
            Err::<Seq<SectionView>, ParseErrorKind>(ParseErrorKind::DuplicateSection)
        } else {
            Ok::<Seq<SectionView>, ParseErrorKind>(
                document + seq![SectionView { name, entries: Seq::empty() }],
            )
        },
{
    config::lemma_find_section(document, name, 0);
    if let Some(k) = config::find_section(document, name, 0) {
        assert(document[k].name == name);
    }
    let section = SectionView { name, entries: Seq::empty() };
    assert(document.push(section) =~= document + seq![section]);
}

/// A pair goes to the end of the last section, unless the section has the key already.
/// In front of the first section it is refused.
pub proof fn pairs_go_to_the_last_section(
    document: Seq<SectionView>,
    last: SectionView,
    entry: EntryView,
)
    ensures
        config::with_line(Seq::empty(), LineView::Pair(entry)) == Err::<
            Seq<SectionView>,
            ParseErrorKind,
        >(ParseErrorKind::EntryOutsideSection),
        config::with_line(document + seq![last], LineView::Pair(entry)) == if exists|i: int|
            0 <= i < last.entries.len() && (#[trigger] last.entries[i]).key == entry.key {
            Err::<Seq<SectionView>, ParseErrorKind>(ParseErrorKind::DuplicateKey)
        } else {
            Ok::<Seq<SectionView>, ParseErrorKind>(
                document + seq![
                    SectionView { name: last.name, entries: last.entries + seq![entry] },
                ],
            )
        },
{
    let whole = document + seq![last];
    assert(whole.last() == last);
    assert(whole.drop_last() =~= document);
    config::lemma_find_entry(last.entries, entry.key, 0);
    if let Some(k) = config::find_entry(last.entries, entry.key, 0) {
        assert(last.entries[k].key == entry.key);
    }
    assert(last.entries.push(entry) =~= last.entries + seq![entry]);
    let section = SectionView { name: last.name, entries: last.entries.push(entry) };
    assert(document.push(section) =~= document + seq![section]);
}

/// What a key of a section is set to is what the entry with the key in the section of the
/// name says, where a document names no section and no key of a section twice.
pub proof fn keys_are_found_in_their_section(document: Seq<SectionView>, i: int, j: int)
    requires
        config::well_formed(document),
        0 <= i < document.len(),
        0 <= j < document[i].entries.len(),
    ensures
        config::value_at(document, document[i].name, document[i].entries[j].key) == Some(
            document[i].entries[j].value,
        ),
{
    config::lemma_find_section(document, document[i].name, 0);
    config::lemma_find_entry(document[i].entries, document[i].entries[j].key, 0);
}

/// A key that no entry of a section has, or a section that a document has not, is set to
/// nothing.
pub proof fn other_keys_are_set_to_nothing(
    document: Seq<SectionView>,
    name: Seq<char>,
    key: Seq<char>,
)
    requires
        forall|i: int, j: int|
            0 <= i < document.len() && 0 <= j < document[i].entries.len() && document[i].name
                == name ==> (#[trigger] document[i].entries[j]).key != key,
    ensures
        config::value_at(document, name, key) is None,
{
    config::lemma_find_section(document, name, 0);
    if let Some(k) = config::find_section(document, name, 0) {
        config::lemma_find_entry(document[k].entries, key, 0);
        if let Some(j) = config::find_entry(document[k].entries, key, 0) {
            assert(document[k].entries[j].key != key);
        }
    }
}

} // verus!
