//! The shipped table compiles.
//!
//! Its source is followed line by line: each line has a sequence behind the sequence of
//! the line before it, so that none is written twice.

use super::default_table::DEFAULT_TABLE;
use super::laws;
use super::table;
use super::table::{Table, TableError};
use super::{MAX_SEQUENCE, TABLE_SECTION};
use crate::config;
use crate::config::{EntryView, LineView, ParseErrorKind, SectionView, ValueView};
use crate::config_text;
use crate::strings;
use vstd::prelude::*;
#[allow(unused_imports)]
use vstd::utf8::*;

verus! {

/// A number that orders sequences of up to four characters.
pub open spec fn place_of(sequence: Seq<char>) -> int {
    strings::char_code(sequence, 0) * 0x20_0000 + strings::char_code(sequence, 1) * 0x4000
        + strings::char_code(sequence, 2) * 0x80 + strings::char_code(sequence, 3)
}

/// Whether a character can be typed: ASCII and no capital letter, and nothing that a text
/// has to escape.
pub open spec fn typed(c: char) -> bool {
    ' ' <= c && c <= '~' && !('A' <= c && c <= 'Z') && c != '"' && c != '\\'
}

/// Whether a text is made of characters that can be typed.
pub open spec fn all_typed(s: Seq<char>) -> bool {
    forall|i: int| 0 <= i < s.len() ==> typed(#[trigger] s[i])
}

/// Whether every entry can be compiled, and the sequences ascend.
pub open spec fn sound(entries: Seq<EntryView>) -> bool {
    &&& forall|i: int|
        0 <= i < entries.len() ==> table::compiled(
            (#[trigger] entries[i]).key,
            entries[i].value,
        ) is Ok
    &&& forall|i: int, j: int|
        0 <= i < j < entries.len() ==> place_of((#[trigger] entries[i]).key) < place_of(
            (#[trigger] entries[j]).key,
        )
}

/// The document of a table.
pub open spec fn document_of(entries: Seq<EntryView>) -> Seq<SectionView> {
    seq![SectionView { name: TABLE_SECTION@, entries }]
}

/// Whether the lines of a source before `i` are those of sound entries.
#[verifier::opaque]
pub open spec fn halfway(s: Seq<char>, i: int, entries: Seq<EntryView>) -> bool {
    &&& 0 <= i <= s.len()
    &&& sound(entries)
    &&& exists|number: int|
        config::parsed_from(s, 0, 1, Seq::empty()) == #[trigger] config::parsed_from(
            s,
            i,
            number,
            document_of(entries),
        )
}

/// The section begins.
proof fn section(s: Seq<char>) -> (entries: Seq<EntryView>)
    requires
        config_text::text_at(s, 0, "[kana]\n"@),
    ensures
        entries.len() == 0,
        halfway(s, 7, entries),
{
    reveal(halfway);
    reveal_strlit("[kana]\n");
    reveal_strlit("kana");
    reveal_strlit("[");
    reveal_strlit("]");
    let name = TABLE_SECTION@;
    let line = config_text::header_line(name);
    let entries = Seq::<EntryView>::empty();
    let none = Seq::<SectionView>::empty();
    let whole = s.subrange(0, 7);
    assert(s.subrange(0, 6) =~= line) by {
        assert forall|k: int| 0 <= k < 6 implies s.subrange(0, 6)[k] == line[k] by {
            assert(whole[k] == s[k]);
        }
    }
    assert(whole[6] == s[6]);
    config_text::lemma_header_line(name);
    assert(none.push(SectionView { name, entries }) =~= document_of(entries));
    config_text::lemma_line_read(
        s,
        0,
        line,
        1,
        none,
        LineView::Header(name),
        document_of(entries),
    );
    entries
}

/// Whether the sequence of an entry comes behind those before it.
pub open spec fn follows(entries: Seq<EntryView>, sequence: Seq<char>) -> bool {
    entries.len() > 0 ==> place_of(entries.last().key) < place_of(sequence)
}

/// An entry that can be compiled is read, and then the rest.
proof fn lemma_entry(s: Seq<char>, i: int, line: Seq<char>, entries: Seq<EntryView>, entry: EntryView)
    requires
        halfway(s, i, entries),
        follows(entries, entry.key),
        table::compiled(entry.key, entry.value) is Ok,
        i + line.len() < s.len(),
        s.subrange(i, i + line.len()) == line,
        s[i + line.len()] == '\n',
        forall|k: int| 0 <= k < line.len() ==> #[trigger] line[k] != '\n',
        config::line_view(line) == Ok::<LineView, ParseErrorKind>(LineView::Pair(entry)),
    ensures
        halfway(s, i + line.len() + 1, entries.push(entry)),
{
    reveal(halfway);
    let document = document_of(entries);
    let after = entries.push(entry);
    let number = choose|number: int|
        config::parsed_from(s, 0, 1, Seq::empty()) == #[trigger] config::parsed_from(
            s,
            i,
            number,
            document,
        );
    assert forall|a: int, b: int| 0 <= a < b < after.len() implies place_of(
        (#[trigger] after[a]).key,
    ) < place_of((#[trigger] after[b]).key) by {
        assert(after[a] == entries[a]);
        if b < entries.len() {
            assert(after[b] == entries[b]);
        } else if a < entries.len() - 1 {
            assert(place_of(entries[a].key) < place_of(entries[entries.len() - 1].key));
        }
    }
    assert forall|a: int| 0 <= a < after.len() implies table::compiled(
        (#[trigger] after[a]).key,
        after[a].value,
    ) is Ok by {
        if a < entries.len() {
            assert(after[a] == entries[a]);
        }
    }
    config::lemma_find_entry(entries, entry.key, 0);
    if let Some(k) = config::find_entry(entries, entry.key, 0) {
        assert(after[k] == entries[k]);
        assert(after[entries.len() as int] == entry);
        assert(place_of(entries[k].key) < place_of(entry.key));
    }
    assert(document.drop_last().push(
        SectionView { name: TABLE_SECTION@, entries: after },
    ) =~= document_of(after));
    config_text::lemma_line_read(
        s,
        i,
        line,
        number,
        document,
        LineView::Pair(entry),
        document_of(after),
    );
}

/// A sequence that can be typed is one of a table, and needs no escapes.
proof fn lemma_typed(s: Seq<char>)
    requires
        all_typed(s),
    ensures
        is_ascii_chars(s),
        !table::has_upper(s),
        config_text::plain(s),
{
    assert forall|i: int| 0 <= i < s.len() implies '\0' <= #[trigger] s[i] <= '\u{7f}' by {
        assert(typed(s[i]));
    }
    if table::has_upper(s) {
        let i = choose|i: int| 0 <= i < s.len() && 'A' <= #[trigger] s[i] && s[i] <= 'Z';
        assert(typed(s[i]));
    }
    assert forall|i: int| 0 <= i < s.len() implies #[trigger] s[i] != '"' && s[i] != '\\' && s[i]
        != '\n' by {
        assert(typed(s[i]));
    }
}

/// Whether a mapping stands in a source at `i`, piece by piece.
pub open spec fn stands(s: Seq<char>, i: int, sequence: Seq<char>, output: Seq<char>) -> bool {
    let k = i + 1 + sequence.len();
    let n = k + 5 + output.len();
    &&& n + 2 <= s.len()
    &&& s[i] == '"'
    &&& config_text::text_at(s, i + 1, sequence)
    &&& s[k] == '"'
    &&& s[k + 1] == ' '
    &&& s[k + 2] == '='
    &&& s[k + 3] == ' '
    &&& s[k + 4] == '"'
    &&& config_text::text_at(s, k + 5, output)
    &&& s[n] == '"'
    &&& s[n + 1] == '\n'
}

/// A sequence is mapped to what it emits.
proof fn maps(
    s: Seq<char>,
    i: int,
    entries: Seq<EntryView>,
    sequence: Seq<char>,
    output: Seq<char>,
) -> (after: Seq<EntryView>)
    requires
        halfway(s, i, entries),
        stands(s, i, sequence, output),
        follows(entries, sequence),
        0 < sequence.len() <= MAX_SEQUENCE,
        all_typed(sequence),
        output.len() > 0,
        config_text::plain(output),
    ensures
        halfway(s, i + sequence.len() + output.len() + 8, after),
        after.len() == entries.len() + 1,
        after.last().key == sequence,
{
    reveal_strlit("\"");
    reveal_strlit("\" = \"");
    assert(0 <= i) by {
        reveal(halfway);
    }
    lemma_typed(sequence);
    lemma_typed(Seq::empty());
    let line = "\""@ + sequence + "\" = \""@ + output + "\""@;
    let k = i + 1 + sequence.len();
    let n = k + 5 + output.len();
    assert(line.len() == sequence.len() + output.len() + 7);
    assert forall|m: int| 0 <= m < line.len() implies s[i + m] == line[m] by {
        if 1 <= m < k - i {
            assert(s.subrange(i + 1, k)[m - 1] == sequence[m - 1]);
        } else if k + 5 - i <= m < n - i {
            assert(s.subrange(k + 5, n)[m - (k + 5 - i)] == output[m - (k + 5 - i)]);
        }
    }
    assert(s.subrange(i, i + line.len()) =~= line);
    config_text::lemma_quoted_entry(sequence, output);
    let entry = config_text::text_entry(sequence, output);
    lemma_entry(s, i, line, entries, entry);
    entries.push(entry)
}

/// Whether a mapping with a carry stands in a source at `i`, piece by piece.
pub open spec fn stands_with_carry(
    s: Seq<char>,
    i: int,
    sequence: Seq<char>,
    output: Seq<char>,
    carry: Seq<char>,
) -> bool {
    let k = i + 1 + sequence.len();
    let m = k + 6 + output.len();
    let n = m + 4 + carry.len();
    &&& n + 3 <= s.len()
    &&& s[i] == '"'
    &&& config_text::text_at(s, i + 1, sequence)
    &&& config_text::text_at(s, k, "\" = [\""@)
    &&& config_text::text_at(s, k + 6, output)
    &&& config_text::text_at(s, m, "\", \""@)
    &&& config_text::text_at(s, m + 4, carry)
    &&& s[n] == '"'
    &&& s[n + 1] == ']'
    &&& s[n + 2] == '\n'
}

/// A sequence is mapped to what it emits and what it carries on.
proof fn carries(
    s: Seq<char>,
    i: int,
    entries: Seq<EntryView>,
    sequence: Seq<char>,
    output: Seq<char>,
    carry: Seq<char>,
) -> (after: Seq<EntryView>)
    requires
        halfway(s, i, entries),
        stands_with_carry(s, i, sequence, output, carry),
        follows(entries, sequence),
        sequence.len() <= MAX_SEQUENCE,
        all_typed(sequence),
        output.len() > 0,
        config_text::plain(output),
        carry.len() < sequence.len(),
        all_typed(carry),
    ensures
        halfway(s, i + sequence.len() + output.len() + carry.len() + 14, after),
        after.len() == entries.len() + 1,
        after.last().key == sequence,
{
    reveal_strlit("\"");
    reveal_strlit("\" = [\"");
    reveal_strlit("\", \"");
    reveal_strlit("\"]");
    assert(0 <= i) by {
        reveal(halfway);
    }
    lemma_typed(sequence);
    lemma_typed(carry);
    let line = "\""@ + sequence + "\" = [\""@ + output + "\", \""@ + carry + "\"]"@;
    let k = i + 1 + sequence.len();
    let m = k + 6 + output.len();
    let n = m + 4 + carry.len();
    assert(line.len() == n + 2 - i);
    assert forall|j: int| 0 <= j < line.len() implies s[i + j] == line[j] by {
        if 1 <= j < k - i {
            assert(s.subrange(i + 1, k)[j - 1] == sequence[j - 1]);
        } else if k - i <= j < k + 6 - i {
            assert(s.subrange(k, k + 6)[j - (k - i)] == "\" = [\""@[j - (k - i)]);
        } else if k + 6 - i <= j < m - i {
            assert(s.subrange(k + 6, m)[j - (k + 6 - i)] == output[j - (k + 6 - i)]);
        } else if m - i <= j < m + 4 - i {
            assert(s.subrange(m, m + 4)[j - (m - i)] == "\", \""@[j - (m - i)]);
        } else if m + 4 - i <= j < n - i {
            assert(s.subrange(m + 4, n)[j - (m + 4 - i)] == carry[j - (m + 4 - i)]);
        }
    }
    assert(s.subrange(i, i + line.len()) =~= line);
    config_text::lemma_quoted_list(sequence, output, carry);
    let entry = EntryView { key: sequence, value: ValueView::List(seq![output, carry]) };
    lemma_entry(s, i, line, entries, entry);
    entries.push(entry)
}

/// Sound entries compile.
proof fn lemma_entries_compile(entries: Seq<EntryView>, n: int)
    requires
        sound(entries),
        0 <= n <= entries.len(),
    ensures
        table::compiled_all(entries, n) is Ok,
    decreases n,
{
    if n > 0 {
        lemma_entries_compile(entries, n - 1);
        assert(table::compiled(entries[n - 1].key, entries[n - 1].value) is Ok);
    }
}

/// A source that was followed to its end compiles.
proof fn lemma_end(s: Seq<char>, entries: Seq<EntryView>)
    requires
        halfway(s, s.len() as int, entries),
        s.len() < usize::MAX,
        entries.len() > 0,
    ensures
        compiles(s, entries.len()),
{
    reveal(halfway);
    let document = document_of(entries);
    let n = s.len() as int;
    let none = Seq::<char>::empty();
    assert(s.subrange(n, n) =~= none);
    assert(config::line_end(s, n) == n);
    assert(config::line_view(none) == Ok::<LineView, ParseErrorKind>(LineView::Blank));
    lemma_entries_compile(entries, entries.len() as int);
    assert(document[0].name == TABLE_SECTION@);
    assert(config::section_entries(document, TABLE_SECTION@) == Some(entries));
}

/// Whether a source compiles, to so many mappings.
pub open spec fn compiles(source: Seq<char>, n: nat) -> bool {
    config::parsed(source) matches Ok(document) && (config::section_entries(
        document,
        TABLE_SECTION@,
    ) matches Some(entries) && entries.len() == n && n > 0 && table::compiled_all(
        entries,
        n as int,
    ) is Ok)
}

// ---------------------------------------------------------------------------
// The shipped table.

/// The first lines of the table.
#[verifier::spinoff_prover]
#[verifier::rlimit(100)]
proof fn lemma_first_lines() -> (after: Seq<EntryView>)
    ensures
        halfway(DEFAULT_TABLE@, 913, after),
        after.len() == 73,
        place_of(after.last().key) == 217595904,
{
    let s = DEFAULT_TABLE@;
    reveal_strlit("\
[kana]\n\
\",\" = \"、\"\n\
\"-\" = \"ー\"\n\
\".\" = \"。\"\n\
\"/\" = \"・\"\n\
\"[\" = \"「\"\n\
\"]\" = \"」\"\n\
\"a\" = \"あ\"\n\
\"ba\" = \"ば\"\n\
\"bb\" = [\"っ\", \"b\"]\n\
\"be\" = \"べ\"\n\
\"bi\" = \"び\"\n\
\"bo\" = \"ぼ\"\n\
\"bu\" = \"ぶ\"\n\
\"bya\" = \"びゃ\"\n\
\"bye\" = \"びぇ\"\n\
\"byi\" = \"びぃ\"\n\
\"byo\" = \"びょ\"\n\
\"byu\" = \"びゅ\"\n\
\"ca\" = \"か\"\n\
\"cc\" = [\"っ\", \"c\"]\n\
\"ce\" = \"せ\"\n\
\"cha\" = \"ちゃ\"\n\
\"che\" = \"ちぇ\"\n\
\"chi\" = \"ち\"\n\
\"cho\" = \"ちょ\"\n\
\"chu\" = \"ちゅ\"\n\
\"ci\" = \"し\"\n\
\"co\" = \"こ\"\n\
\"cu\" = \"く\"\n\
\"cya\" = \"ちゃ\"\n\
\"cye\" = \"ちぇ\"\n\
\"cyi\" = \"ちぃ\"\n\
\"cyo\" = \"ちょ\"\n\
\"cyu\" = \"ちゅ\"\n\
\"da\" = \"だ\"\n\
\"dd\" = [\"っ\", \"d\"]\n\
\"de\" = \"で\"\n\
\"dha\" = \"でゃ\"\n\
\"dhe\" = \"でぇ\"\n\
\"dhi\" = \"でぃ\"\n\
\"dho\" = \"でょ\"\n\
\"dhu\" = \"でゅ\"\n\
\"di\" = \"ぢ\"\n\
\"do\" = \"ど\"\n\
\"du\" = \"づ\"\n\
\"dwa\" = \"どぁ\"\n\
\"dwe\" = \"どぇ\"\n\
\"dwi\" = \"どぃ\"\n\
\"dwo\" = \"どぉ\"\n\
\"dwu\" = \"どぅ\"\n\
\"dya\" = \"ぢゃ\"\n\
\"dye\" = \"ぢぇ\"\n\
\"dyi\" = \"ぢぃ\"\n\
\"dyo\" = \"ぢょ\"\n\
\"dyu\" = \"ぢゅ\"\n\
\"e\" = \"え\"\n\
\"fa\" = \"ふぁ\"\n\
\"fe\" = \"ふぇ\"\n\
\"ff\" = [\"っ\", \"f\"]\n\
\"fi\" = \"ふぃ\"\n\
\"fo\" = \"ふぉ\"\n\
\"fu\" = \"ふ\"\n\
\"fwa\" = \"ふぁ\"\n\
\"fwe\" = \"ふぇ\"\n\
\"fwi\" = \"ふぃ\"\n\
\"fwo\" = \"ふぉ\"\n\
\"fwu\" = \"ふぅ\"\n\
\"fya\" = \"ふゃ\"\n\
\"fye\" = \"ふぇ\"\n\
\"fyi\" = \"ふぃ\"\n\
\"fyo\" = \"ふょ\"\n\
\"fyu\" = \"ふゅ\"\n\
\"ga\" = \"が\"\n\
\"ge\" = \"げ\"\n\
\"gg\" = [\"っ\", \"g\"]\n\
\"gi\" = \"ぎ\"\n\
\"go\" = \"ご\"\n\
\"gu\" = \"ぐ\"\n\
\"gwa\" = \"ぐぁ\"\n\
\"gwe\" = \"ぐぇ\"\n\
\"gwi\" = \"ぐぃ\"\n\
\"gwo\" = \"ぐぉ\"\n\
\"gwu\" = \"ぐぅ\"\n\
\"gya\" = \"ぎゃ\"\n\
\"gye\" = \"ぎぇ\"\n\
\"gyi\" = \"ぎぃ\"\n\
\"gyo\" = \"ぎょ\"\n\
\"gyu\" = \"ぎゅ\"\n\
\"ha\" = \"は\"\n\
\"he\" = \"へ\"\n\
\"hh\" = [\"っ\", \"h\"]\n\
\"hi\" = \"ひ\"\n\
\"ho\" = \"ほ\"\n\
\"hu\" = \"ふ\"\n\
\"hya\" = \"ひゃ\"\n\
\"hye\" = \"ひぇ\"\n\
\"hyi\" = \"ひぃ\"\n\
\"hyo\" = \"ひょ\"\n\
\"hyu\" = \"ひゅ\"\n\
\"i\" = \"い\"\n\
\"ja\" = \"じゃ\"\n\
\"je\" = \"じぇ\"\n\
\"ji\" = \"じ\"\n\
\"jj\" = [\"っ\", \"j\"]\n\
\"jo\" = \"じょ\"\n\
\"ju\" = \"じゅ\"\n\
\"jya\" = \"じゃ\"\n\
\"jye\" = \"じぇ\"\n\
\"jyi\" = \"じぃ\"\n\
\"jyo\" = \"じょ\"\n\
\"jyu\" = \"じゅ\"\n\
\"ka\" = \"か\"\n\
\"ke\" = \"け\"\n\
\"ki\" = \"き\"\n\
\"kk\" = [\"っ\", \"k\"]\n\
\"ko\" = \"こ\"\n\
\"ku\" = \"く\"\n\
\"kwa\" = \"くぁ\"\n\
\"kwe\" = \"くぇ\"\n\
\"kwi\" = \"くぃ\"\n\
\"kwo\" = \"くぉ\"\n\
\"kwu\" = \"くぅ\"\n\
\"kya\" = \"きゃ\"\n\
\"kye\" = \"きぇ\"\n\
\"kyi\" = \"きぃ\"\n\
\"kyo\" = \"きょ\"\n\
\"kyu\" = \"きゅ\"\n\
\"la\" = \"ぁ\"\n\
\"le\" = \"ぇ\"\n\
\"li\" = \"ぃ\"\n\
\"lka\" = \"ヵ\"\n\
\"lke\" = \"ヶ\"\n\
\"lo\" = \"ぉ\"\n\
\"ltsu\" = \"っ\"\n\
\"ltu\" = \"っ\"\n\
\"lu\" = \"ぅ\"\n\
\"lwa\" = \"ゎ\"\n\
\"lya\" = \"ゃ\"\n\
\"lye\" = \"ぇ\"\n\
\"lyi\" = \"ぃ\"\n\
\"lyo\" = \"ょ\"\n\
\"lyu\" = \"ゅ\"\n\
\"ma\" = \"ま\"\n\
\"me\" = \"め\"\n\
\"mi\" = \"み\"\n\
\"mm\" = [\"っ\", \"m\"]\n\
\"mo\" = \"も\"\n\
\"mu\" = \"む\"\n\
\"mya\" = \"みゃ\"\n\
\"mye\" = \"みぇ\"\n\
\"myi\" = \"みぃ\"\n\
\"myo\" = \"みょ\"\n\
\"myu\" = \"みゅ\"\n\
\"n\" = \"ん\"\n\
\"n'\" = \"ん\"\n\
\"na\" = \"な\"\n\
\"ne\" = \"ね\"\n\
\"ni\" = \"に\"\n\
\"nn\" = \"ん\"\n\
\"no\" = \"の\"\n\
\"nu\" = \"ぬ\"\n\
\"nya\" = \"にゃ\"\n\
\"nye\" = \"にぇ\"\n\
\"nyi\" = \"にぃ\"\n\
\"nyo\" = \"にょ\"\n\
\"nyu\" = \"にゅ\"\n\
\"o\" = \"お\"\n\
\"pa\" = \"ぱ\"\n\
\"pe\" = \"ぺ\"\n\
\"pi\" = \"ぴ\"\n\
\"po\" = \"ぽ\"\n\
\"pp\" = [\"っ\", \"p\"]\n\
\"pu\" = \"ぷ\"\n\
\"pya\" = \"ぴゃ\"\n\
\"pye\" = \"ぴぇ\"\n\
\"pyi\" = \"ぴぃ\"\n\
\"pyo\" = \"ぴょ\"\n\
\"pyu\" = \"ぴゅ\"\n\
\"ra\" = \"ら\"\n\
\"re\" = \"れ\"\n\
\"ri\" = \"り\"\n\
\"ro\" = \"ろ\"\n\
\"rr\" = [\"っ\", \"r\"]\n\
\"ru\" = \"る\"\n\
\"rya\" = \"りゃ\"\n\
\"rye\" = \"りぇ\"\n\
\"ryi\" = \"りぃ\"\n\
\"ryo\" = \"りょ\"\n\
\"ryu\" = \"りゅ\"\n\
\"sa\" = \"さ\"\n\
\"se\" = \"せ\"\n\
\"sha\" = \"しゃ\"\n\
\"she\" = \"しぇ\"\n\
\"shi\" = \"し\"\n\
\"sho\" = \"しょ\"\n\
\"shu\" = \"しゅ\"\n\
\"si\" = \"し\"\n\
\"so\" = \"そ\"\n\
\"ss\" = [\"っ\", \"s\"]\n\
\"su\" = \"す\"\n\
\"swa\" = \"すぁ\"\n\
\"swe\" = \"すぇ\"\n\
\"swi\" = \"すぃ\"\n\
\"swo\" = \"すぉ\"\n\
\"swu\" = \"すぅ\"\n\
\"sya\" = \"しゃ\"\n\
\"sye\" = \"しぇ\"\n\
\"syi\" = \"しぃ\"\n\
\"syo\" = \"しょ\"\n\
\"syu\" = \"しゅ\"\n\
\"ta\" = \"た\"\n\
\"te\" = \"て\"\n\
\"tha\" = \"てゃ\"\n\
\"the\" = \"てぇ\"\n\
\"thi\" = \"てぃ\"\n\
\"tho\" = \"てょ\"\n\
\"thu\" = \"てゅ\"\n\
\"ti\" = \"ち\"\n\
\"to\" = \"と\"\n\
\"tsa\" = \"つぁ\"\n\
\"tse\" = \"つぇ\"\n\
\"tsi\" = \"つぃ\"\n\
\"tso\" = \"つぉ\"\n\
\"tsu\" = \"つ\"\n\
\"tt\" = [\"っ\", \"t\"]\n\
\"tu\" = \"つ\"\n\
\"twa\" = \"とぁ\"\n\
\"twe\" = \"とぇ\"\n\
\"twi\" = \"とぃ\"\n\
\"two\" = \"とぉ\"\n\
\"twu\" = \"とぅ\"\n\
\"tya\" = \"ちゃ\"\n\
\"tye\" = \"ちぇ\"\n\
\"tyi\" = \"ちぃ\"\n\
\"tyo\" = \"ちょ\"\n\
\"tyu\" = \"ちゅ\"\n\
\"u\" = \"う\"\n\
\"va\" = \"ゔぁ\"\n\
\"ve\" = \"ゔぇ\"\n\
\"vi\" = \"ゔぃ\"\n\
\"vo\" = \"ゔぉ\"\n\
\"vu\" = \"ゔ\"\n\
\"vv\" = [\"っ\", \"v\"]\n\
\"vya\" = \"ゔゃ\"\n\
\"vye\" = \"ゔぇ\"\n\
\"vyi\" = \"ゔぃ\"\n\
\"vyo\" = \"ゔょ\"\n\
\"vyu\" = \"ゔゅ\"\n\
\"wa\" = \"わ\"\n\
\"we\" = \"うぇ\"\n\
\"wha\" = \"うぁ\"\n\
\"whe\" = \"うぇ\"\n\
\"whi\" = \"うぃ\"\n\
\"who\" = \"うぉ\"\n\
\"whu\" = \"う\"\n\
\"wi\" = \"うぃ\"\n\
\"wo\" = \"を\"\n\
\"wu\" = \"う\"\n\
\"ww\" = [\"っ\", \"w\"]\n\
\"xa\" = \"ぁ\"\n\
\"xe\" = \"ぇ\"\n\
\"xi\" = \"ぃ\"\n\
\"xka\" = \"ヵ\"\n\
\"xke\" = \"ヶ\"\n\
\"xn\" = \"ん\"\n\
\"xo\" = \"ぉ\"\n\
\"xtsu\" = \"っ\"\n\
\"xtu\" = \"っ\"\n\
\"xu\" = \"ぅ\"\n\
\"xwa\" = \"ゎ\"\n\
\"xya\" = \"ゃ\"\n\
\"xye\" = \"ぇ\"\n\
\"xyi\" = \"ぃ\"\n\
\"xyo\" = \"ょ\"\n\
\"xyu\" = \"ゅ\"\n\
\"ya\" = \"や\"\n\
\"ye\" = \"いぇ\"\n\
\"yi\" = \"い\"\n\
\"yo\" = \"よ\"\n\
\"yu\" = \"ゆ\"\n\
\"yy\" = [\"っ\", \"y\"]\n\
\"za\" = \"ざ\"\n\
\"ze\" = \"ぜ\"\n\
\"zi\" = \"じ\"\n\
\"zo\" = \"ぞ\"\n\
\"zu\" = \"ず\"\n\
\"zya\" = \"じゃ\"\n\
\"zye\" = \"じぇ\"\n\
\"zyi\" = \"じぃ\"\n\
\"zyo\" = \"じょ\"\n\
\"zyu\" = \"じゅ\"\n\
\"zz\" = [\"っ\", \"z\"]\n\
");
    reveal_strlit("[kana]\n");
    let t = section(s);
    reveal_strlit("\" = [\"");
    reveal_strlit("\", \"");
    let t = maps(s, 7, t, seq![','], seq!['、']);
    let t = maps(s, 17, t, seq!['-'], seq!['ー']);
    let t = maps(s, 27, t, seq!['.'], seq!['。']);
    let t = maps(s, 37, t, seq!['/'], seq!['・']);
    let t = maps(s, 47, t, seq!['['], seq!['「']);
    let t = maps(s, 57, t, seq![']'], seq!['」']);
    let t = maps(s, 67, t, seq!['a'], seq!['あ']);
    let t = maps(s, 77, t, seq!['b', 'a'], seq!['ば']);
    let t = carries(s, 88, t, seq!['b', 'b'], seq!['っ'], seq!['b']);
    let t = maps(s, 106, t, seq!['b', 'e'], seq!['べ']);
    let t = maps(s, 117, t, seq!['b', 'i'], seq!['び']);
    let t = maps(s, 128, t, seq!['b', 'o'], seq!['ぼ']);
    let t = maps(s, 139, t, seq!['b', 'u'], seq!['ぶ']);
    let t = maps(s, 150, t, seq!['b', 'y', 'a'], seq!['び', 'ゃ']);
    let t = maps(s, 163, t, seq!['b', 'y', 'e'], seq!['び', 'ぇ']);
    let t = maps(s, 176, t, seq!['b', 'y', 'i'], seq!['び', 'ぃ']);
    let t = maps(s, 189, t, seq!['b', 'y', 'o'], seq!['び', 'ょ']);
    let t = maps(s, 202, t, seq!['b', 'y', 'u'], seq!['び', 'ゅ']);
    let t = maps(s, 215, t, seq!['c', 'a'], seq!['か']);
    let t = carries(s, 226, t, seq!['c', 'c'], seq!['っ'], seq!['c']);
    let t = maps(s, 244, t, seq!['c', 'e'], seq!['せ']);
    let t = maps(s, 255, t, seq!['c', 'h', 'a'], seq!['ち', 'ゃ']);
    let t = maps(s, 268, t, seq!['c', 'h', 'e'], seq!['ち', 'ぇ']);
    let t = maps(s, 281, t, seq!['c', 'h', 'i'], seq!['ち']);
    let t = maps(s, 293, t, seq!['c', 'h', 'o'], seq!['ち', 'ょ']);
    let t = maps(s, 306, t, seq!['c', 'h', 'u'], seq!['ち', 'ゅ']);
    let t = maps(s, 319, t, seq!['c', 'i'], seq!['し']);
    let t = maps(s, 330, t, seq!['c', 'o'], seq!['こ']);
    let t = maps(s, 341, t, seq!['c', 'u'], seq!['く']);
    let t = maps(s, 352, t, seq!['c', 'y', 'a'], seq!['ち', 'ゃ']);
    let t = maps(s, 365, t, seq!['c', 'y', 'e'], seq!['ち', 'ぇ']);
    let t = maps(s, 378, t, seq!['c', 'y', 'i'], seq!['ち', 'ぃ']);
    let t = maps(s, 391, t, seq!['c', 'y', 'o'], seq!['ち', 'ょ']);
    let t = maps(s, 404, t, seq!['c', 'y', 'u'], seq!['ち', 'ゅ']);
    let t = maps(s, 417, t, seq!['d', 'a'], seq!['だ']);
    let t = carries(s, 428, t, seq!['d', 'd'], seq!['っ'], seq!['d']);
    let t = maps(s, 446, t, seq!['d', 'e'], seq!['で']);
    let t = maps(s, 457, t, seq!['d', 'h', 'a'], seq!['で', 'ゃ']);
    let t = maps(s, 470, t, seq!['d', 'h', 'e'], seq!['で', 'ぇ']);
    let t = maps(s, 483, t, seq!['d', 'h', 'i'], seq!['で', 'ぃ']);
    let t = maps(s, 496, t, seq!['d', 'h', 'o'], seq!['で', 'ょ']);
    let t = maps(s, 509, t, seq!['d', 'h', 'u'], seq!['で', 'ゅ']);
    let t = maps(s, 522, t, seq!['d', 'i'], seq!['ぢ']);
    let t = maps(s, 533, t, seq!['d', 'o'], seq!['ど']);
    let t = maps(s, 544, t, seq!['d', 'u'], seq!['づ']);
    let t = maps(s, 555, t, seq!['d', 'w', 'a'], seq!['ど', 'ぁ']);
    let t = maps(s, 568, t, seq!['d', 'w', 'e'], seq!['ど', 'ぇ']);
    let t = maps(s, 581, t, seq!['d', 'w', 'i'], seq!['ど', 'ぃ']);
    let t = maps(s, 594, t, seq!['d', 'w', 'o'], seq!['ど', 'ぉ']);
    let t = maps(s, 607, t, seq!['d', 'w', 'u'], seq!['ど', 'ぅ']);
    let t = maps(s, 620, t, seq!['d', 'y', 'a'], seq!['ぢ', 'ゃ']);
    let t = maps(s, 633, t, seq!['d', 'y', 'e'], seq!['ぢ', 'ぇ']);
    let t = maps(s, 646, t, seq!['d', 'y', 'i'], seq!['ぢ', 'ぃ']);
    let t = maps(s, 659, t, seq!['d', 'y', 'o'], seq!['ぢ', 'ょ']);
    let t = maps(s, 672, t, seq!['d', 'y', 'u'], seq!['ぢ', 'ゅ']);
    let t = maps(s, 685, t, seq!['e'], seq!['え']);
    let t = maps(s, 695, t, seq!['f', 'a'], seq!['ふ', 'ぁ']);
    let t = maps(s, 707, t, seq!['f', 'e'], seq!['ふ', 'ぇ']);
    let t = carries(s, 719, t, seq!['f', 'f'], seq!['っ'], seq!['f']);
    let t = maps(s, 737, t, seq!['f', 'i'], seq!['ふ', 'ぃ']);
    let t = maps(s, 749, t, seq!['f', 'o'], seq!['ふ', 'ぉ']);
    let t = maps(s, 761, t, seq!['f', 'u'], seq!['ふ']);
    let t = maps(s, 772, t, seq!['f', 'w', 'a'], seq!['ふ', 'ぁ']);
    let t = maps(s, 785, t, seq!['f', 'w', 'e'], seq!['ふ', 'ぇ']);
    let t = maps(s, 798, t, seq!['f', 'w', 'i'], seq!['ふ', 'ぃ']);
    let t = maps(s, 811, t, seq!['f', 'w', 'o'], seq!['ふ', 'ぉ']);
    let t = maps(s, 824, t, seq!['f', 'w', 'u'], seq!['ふ', 'ぅ']);
    let t = maps(s, 837, t, seq!['f', 'y', 'a'], seq!['ふ', 'ゃ']);
    let t = maps(s, 850, t, seq!['f', 'y', 'e'], seq!['ふ', 'ぇ']);
    let t = maps(s, 863, t, seq!['f', 'y', 'i'], seq!['ふ', 'ぃ']);
    let t = maps(s, 876, t, seq!['f', 'y', 'o'], seq!['ふ', 'ょ']);
    let t = maps(s, 889, t, seq!['f', 'y', 'u'], seq!['ふ', 'ゅ']);
    let t = maps(s, 902, t, seq!['g', 'a'], seq!['が']);
    t
}

/// The second lines of the table.
#[verifier::spinoff_prover]
#[verifier::rlimit(100)]
proof fn lemma_second_lines(t: Seq<EntryView>) -> (after: Seq<EntryView>)
    requires
        halfway(DEFAULT_TABLE@, 913, t),
        t.len() == 73,
        place_of(t.last().key) == 217595904,
    ensures
        halfway(DEFAULT_TABLE@, 1825, after),
        after.len() == 146,
        place_of(after.last().key) == 230375424,
{
    let s = DEFAULT_TABLE@;
    reveal_strlit("\
[kana]\n\
\",\" = \"、\"\n\
\"-\" = \"ー\"\n\
\".\" = \"。\"\n\
\"/\" = \"・\"\n\
\"[\" = \"「\"\n\
\"]\" = \"」\"\n\
\"a\" = \"あ\"\n\
\"ba\" = \"ば\"\n\
\"bb\" = [\"っ\", \"b\"]\n\
\"be\" = \"べ\"\n\
\"bi\" = \"び\"\n\
\"bo\" = \"ぼ\"\n\
\"bu\" = \"ぶ\"\n\
\"bya\" = \"びゃ\"\n\
\"bye\" = \"びぇ\"\n\
\"byi\" = \"びぃ\"\n\
\"byo\" = \"びょ\"\n\
\"byu\" = \"びゅ\"\n\
\"ca\" = \"か\"\n\
\"cc\" = [\"っ\", \"c\"]\n\
\"ce\" = \"せ\"\n\
\"cha\" = \"ちゃ\"\n\
\"che\" = \"ちぇ\"\n\
\"chi\" = \"ち\"\n\
\"cho\" = \"ちょ\"\n\
\"chu\" = \"ちゅ\"\n\
\"ci\" = \"し\"\n\
\"co\" = \"こ\"\n\
\"cu\" = \"く\"\n\
\"cya\" = \"ちゃ\"\n\
\"cye\" = \"ちぇ\"\n\
\"cyi\" = \"ちぃ\"\n\
\"cyo\" = \"ちょ\"\n\
\"cyu\" = \"ちゅ\"\n\
\"da\" = \"だ\"\n\
\"dd\" = [\"っ\", \"d\"]\n\
\"de\" = \"で\"\n\
\"dha\" = \"でゃ\"\n\
\"dhe\" = \"でぇ\"\n\
\"dhi\" = \"でぃ\"\n\
\"dho\" = \"でょ\"\n\
\"dhu\" = \"でゅ\"\n\
\"di\" = \"ぢ\"\n\
\"do\" = \"ど\"\n\
\"du\" = \"づ\"\n\
\"dwa\" = \"どぁ\"\n\
\"dwe\" = \"どぇ\"\n\
\"dwi\" = \"どぃ\"\n\
\"dwo\" = \"どぉ\"\n\
\"dwu\" = \"どぅ\"\n\
\"dya\" = \"ぢゃ\"\n\
\"dye\" = \"ぢぇ\"\n\
\"dyi\" = \"ぢぃ\"\n\
\"dyo\" = \"ぢょ\"\n\
\"dyu\" = \"ぢゅ\"\n\
\"e\" = \"え\"\n\
\"fa\" = \"ふぁ\"\n\
\"fe\" = \"ふぇ\"\n\
\"ff\" = [\"っ\", \"f\"]\n\
\"fi\" = \"ふぃ\"\n\
\"fo\" = \"ふぉ\"\n\
\"fu\" = \"ふ\"\n\
\"fwa\" = \"ふぁ\"\n\
\"fwe\" = \"ふぇ\"\n\
\"fwi\" = \"ふぃ\"\n\
\"fwo\" = \"ふぉ\"\n\
\"fwu\" = \"ふぅ\"\n\
\"fya\" = \"ふゃ\"\n\
\"fye\" = \"ふぇ\"\n\
\"fyi\" = \"ふぃ\"\n\
\"fyo\" = \"ふょ\"\n\
\"fyu\" = \"ふゅ\"\n\
\"ga\" = \"が\"\n\
\"ge\" = \"げ\"\n\
\"gg\" = [\"っ\", \"g\"]\n\
\"gi\" = \"ぎ\"\n\
\"go\" = \"ご\"\n\
\"gu\" = \"ぐ\"\n\
\"gwa\" = \"ぐぁ\"\n\
\"gwe\" = \"ぐぇ\"\n\
\"gwi\" = \"ぐぃ\"\n\
\"gwo\" = \"ぐぉ\"\n\
\"gwu\" = \"ぐぅ\"\n\
\"gya\" = \"ぎゃ\"\n\
\"gye\" = \"ぎぇ\"\n\
\"gyi\" = \"ぎぃ\"\n\
\"gyo\" = \"ぎょ\"\n\
\"gyu\" = \"ぎゅ\"\n\
\"ha\" = \"は\"\n\
\"he\" = \"へ\"\n\
\"hh\" = [\"っ\", \"h\"]\n\
\"hi\" = \"ひ\"\n\
\"ho\" = \"ほ\"\n\
\"hu\" = \"ふ\"\n\
\"hya\" = \"ひゃ\"\n\
\"hye\" = \"ひぇ\"\n\
\"hyi\" = \"ひぃ\"\n\
\"hyo\" = \"ひょ\"\n\
\"hyu\" = \"ひゅ\"\n\
\"i\" = \"い\"\n\
\"ja\" = \"じゃ\"\n\
\"je\" = \"じぇ\"\n\
\"ji\" = \"じ\"\n\
\"jj\" = [\"っ\", \"j\"]\n\
\"jo\" = \"じょ\"\n\
\"ju\" = \"じゅ\"\n\
\"jya\" = \"じゃ\"\n\
\"jye\" = \"じぇ\"\n\
\"jyi\" = \"じぃ\"\n\
\"jyo\" = \"じょ\"\n\
\"jyu\" = \"じゅ\"\n\
\"ka\" = \"か\"\n\
\"ke\" = \"け\"\n\
\"ki\" = \"き\"\n\
\"kk\" = [\"っ\", \"k\"]\n\
\"ko\" = \"こ\"\n\
\"ku\" = \"く\"\n\
\"kwa\" = \"くぁ\"\n\
\"kwe\" = \"くぇ\"\n\
\"kwi\" = \"くぃ\"\n\
\"kwo\" = \"くぉ\"\n\
\"kwu\" = \"くぅ\"\n\
\"kya\" = \"きゃ\"\n\
\"kye\" = \"きぇ\"\n\
\"kyi\" = \"きぃ\"\n\
\"kyo\" = \"きょ\"\n\
\"kyu\" = \"きゅ\"\n\
\"la\" = \"ぁ\"\n\
\"le\" = \"ぇ\"\n\
\"li\" = \"ぃ\"\n\
\"lka\" = \"ヵ\"\n\
\"lke\" = \"ヶ\"\n\
\"lo\" = \"ぉ\"\n\
\"ltsu\" = \"っ\"\n\
\"ltu\" = \"っ\"\n\
\"lu\" = \"ぅ\"\n\
\"lwa\" = \"ゎ\"\n\
\"lya\" = \"ゃ\"\n\
\"lye\" = \"ぇ\"\n\
\"lyi\" = \"ぃ\"\n\
\"lyo\" = \"ょ\"\n\
\"lyu\" = \"ゅ\"\n\
\"ma\" = \"ま\"\n\
\"me\" = \"め\"\n\
\"mi\" = \"み\"\n\
\"mm\" = [\"っ\", \"m\"]\n\
\"mo\" = \"も\"\n\
\"mu\" = \"む\"\n\
\"mya\" = \"みゃ\"\n\
\"mye\" = \"みぇ\"\n\
\"myi\" = \"みぃ\"\n\
\"myo\" = \"みょ\"\n\
\"myu\" = \"みゅ\"\n\
\"n\" = \"ん\"\n\
\"n'\" = \"ん\"\n\
\"na\" = \"な\"\n\
\"ne\" = \"ね\"\n\
\"ni\" = \"に\"\n\
\"nn\" = \"ん\"\n\
\"no\" = \"の\"\n\
\"nu\" = \"ぬ\"\n\
\"nya\" = \"にゃ\"\n\
\"nye\" = \"にぇ\"\n\
\"nyi\" = \"にぃ\"\n\
\"nyo\" = \"にょ\"\n\
\"nyu\" = \"にゅ\"\n\
\"o\" = \"お\"\n\
\"pa\" = \"ぱ\"\n\
\"pe\" = \"ぺ\"\n\
\"pi\" = \"ぴ\"\n\
\"po\" = \"ぽ\"\n\
\"pp\" = [\"っ\", \"p\"]\n\
\"pu\" = \"ぷ\"\n\
\"pya\" = \"ぴゃ\"\n\
\"pye\" = \"ぴぇ\"\n\
\"pyi\" = \"ぴぃ\"\n\
\"pyo\" = \"ぴょ\"\n\
\"pyu\" = \"ぴゅ\"\n\
\"ra\" = \"ら\"\n\
\"re\" = \"れ\"\n\
\"ri\" = \"り\"\n\
\"ro\" = \"ろ\"\n\
\"rr\" = [\"っ\", \"r\"]\n\
\"ru\" = \"る\"\n\
\"rya\" = \"りゃ\"\n\
\"rye\" = \"りぇ\"\n\
\"ryi\" = \"りぃ\"\n\
\"ryo\" = \"りょ\"\n\
\"ryu\" = \"りゅ\"\n\
\"sa\" = \"さ\"\n\
\"se\" = \"せ\"\n\
\"sha\" = \"しゃ\"\n\
\"she\" = \"しぇ\"\n\
\"shi\" = \"し\"\n\
\"sho\" = \"しょ\"\n\
\"shu\" = \"しゅ\"\n\
\"si\" = \"し\"\n\
\"so\" = \"そ\"\n\
\"ss\" = [\"っ\", \"s\"]\n\
\"su\" = \"す\"\n\
\"swa\" = \"すぁ\"\n\
\"swe\" = \"すぇ\"\n\
\"swi\" = \"すぃ\"\n\
\"swo\" = \"すぉ\"\n\
\"swu\" = \"すぅ\"\n\
\"sya\" = \"しゃ\"\n\
\"sye\" = \"しぇ\"\n\
\"syi\" = \"しぃ\"\n\
\"syo\" = \"しょ\"\n\
\"syu\" = \"しゅ\"\n\
\"ta\" = \"た\"\n\
\"te\" = \"て\"\n\
\"tha\" = \"てゃ\"\n\
\"the\" = \"てぇ\"\n\
\"thi\" = \"てぃ\"\n\
\"tho\" = \"てょ\"\n\
\"thu\" = \"てゅ\"\n\
\"ti\" = \"ち\"\n\
\"to\" = \"と\"\n\
\"tsa\" = \"つぁ\"\n\
\"tse\" = \"つぇ\"\n\
\"tsi\" = \"つぃ\"\n\
\"tso\" = \"つぉ\"\n\
\"tsu\" = \"つ\"\n\
\"tt\" = [\"っ\", \"t\"]\n\
\"tu\" = \"つ\"\n\
\"twa\" = \"とぁ\"\n\
\"twe\" = \"とぇ\"\n\
\"twi\" = \"とぃ\"\n\
\"two\" = \"とぉ\"\n\
\"twu\" = \"とぅ\"\n\
\"tya\" = \"ちゃ\"\n\
\"tye\" = \"ちぇ\"\n\
\"tyi\" = \"ちぃ\"\n\
\"tyo\" = \"ちょ\"\n\
\"tyu\" = \"ちゅ\"\n\
\"u\" = \"う\"\n\
\"va\" = \"ゔぁ\"\n\
\"ve\" = \"ゔぇ\"\n\
\"vi\" = \"ゔぃ\"\n\
\"vo\" = \"ゔぉ\"\n\
\"vu\" = \"ゔ\"\n\
\"vv\" = [\"っ\", \"v\"]\n\
\"vya\" = \"ゔゃ\"\n\
\"vye\" = \"ゔぇ\"\n\
\"vyi\" = \"ゔぃ\"\n\
\"vyo\" = \"ゔょ\"\n\
\"vyu\" = \"ゔゅ\"\n\
\"wa\" = \"わ\"\n\
\"we\" = \"うぇ\"\n\
\"wha\" = \"うぁ\"\n\
\"whe\" = \"うぇ\"\n\
\"whi\" = \"うぃ\"\n\
\"who\" = \"うぉ\"\n\
\"whu\" = \"う\"\n\
\"wi\" = \"うぃ\"\n\
\"wo\" = \"を\"\n\
\"wu\" = \"う\"\n\
\"ww\" = [\"っ\", \"w\"]\n\
\"xa\" = \"ぁ\"\n\
\"xe\" = \"ぇ\"\n\
\"xi\" = \"ぃ\"\n\
\"xka\" = \"ヵ\"\n\
\"xke\" = \"ヶ\"\n\
\"xn\" = \"ん\"\n\
\"xo\" = \"ぉ\"\n\
\"xtsu\" = \"っ\"\n\
\"xtu\" = \"っ\"\n\
\"xu\" = \"ぅ\"\n\
\"xwa\" = \"ゎ\"\n\
\"xya\" = \"ゃ\"\n\
\"xye\" = \"ぇ\"\n\
\"xyi\" = \"ぃ\"\n\
\"xyo\" = \"ょ\"\n\
\"xyu\" = \"ゅ\"\n\
\"ya\" = \"や\"\n\
\"ye\" = \"いぇ\"\n\
\"yi\" = \"い\"\n\
\"yo\" = \"よ\"\n\
\"yu\" = \"ゆ\"\n\
\"yy\" = [\"っ\", \"y\"]\n\
\"za\" = \"ざ\"\n\
\"ze\" = \"ぜ\"\n\
\"zi\" = \"じ\"\n\
\"zo\" = \"ぞ\"\n\
\"zu\" = \"ず\"\n\
\"zya\" = \"じゃ\"\n\
\"zye\" = \"じぇ\"\n\
\"zyi\" = \"じぃ\"\n\
\"zyo\" = \"じょ\"\n\
\"zyu\" = \"じゅ\"\n\
\"zz\" = [\"っ\", \"z\"]\n\
");
    reveal_strlit("\" = [\"");
    reveal_strlit("\", \"");
    let t = maps(s, 913, t, seq!['g', 'e'], seq!['げ']);
    let t = carries(s, 924, t, seq!['g', 'g'], seq!['っ'], seq!['g']);
    let t = maps(s, 942, t, seq!['g', 'i'], seq!['ぎ']);
    let t = maps(s, 953, t, seq!['g', 'o'], seq!['ご']);
    let t = maps(s, 964, t, seq!['g', 'u'], seq!['ぐ']);
    let t = maps(s, 975, t, seq!['g', 'w', 'a'], seq!['ぐ', 'ぁ']);
    let t = maps(s, 988, t, seq!['g', 'w', 'e'], seq!['ぐ', 'ぇ']);
    let t = maps(s, 1001, t, seq!['g', 'w', 'i'], seq!['ぐ', 'ぃ']);
    let t = maps(s, 1014, t, seq!['g', 'w', 'o'], seq!['ぐ', 'ぉ']);
    let t = maps(s, 1027, t, seq!['g', 'w', 'u'], seq!['ぐ', 'ぅ']);
    let t = maps(s, 1040, t, seq!['g', 'y', 'a'], seq!['ぎ', 'ゃ']);
    let t = maps(s, 1053, t, seq!['g', 'y', 'e'], seq!['ぎ', 'ぇ']);
    let t = maps(s, 1066, t, seq!['g', 'y', 'i'], seq!['ぎ', 'ぃ']);
    let t = maps(s, 1079, t, seq!['g', 'y', 'o'], seq!['ぎ', 'ょ']);
    let t = maps(s, 1092, t, seq!['g', 'y', 'u'], seq!['ぎ', 'ゅ']);
    let t = maps(s, 1105, t, seq!['h', 'a'], seq!['は']);
    let t = maps(s, 1116, t, seq!['h', 'e'], seq!['へ']);
    let t = carries(s, 1127, t, seq!['h', 'h'], seq!['っ'], seq!['h']);
    let t = maps(s, 1145, t, seq!['h', 'i'], seq!['ひ']);
    let t = maps(s, 1156, t, seq!['h', 'o'], seq!['ほ']);
    let t = maps(s, 1167, t, seq!['h', 'u'], seq!['ふ']);
    let t = maps(s, 1178, t, seq!['h', 'y', 'a'], seq!['ひ', 'ゃ']);
    let t = maps(s, 1191, t, seq!['h', 'y', 'e'], seq!['ひ', 'ぇ']);
    let t = maps(s, 1204, t, seq!['h', 'y', 'i'], seq!['ひ', 'ぃ']);
    let t = maps(s, 1217, t, seq!['h', 'y', 'o'], seq!['ひ', 'ょ']);
    let t = maps(s, 1230, t, seq!['h', 'y', 'u'], seq!['ひ', 'ゅ']);
    let t = maps(s, 1243, t, seq!['i'], seq!['い']);
    let t = maps(s, 1253, t, seq!['j', 'a'], seq!['じ', 'ゃ']);
    let t = maps(s, 1265, t, seq!['j', 'e'], seq!['じ', 'ぇ']);
    let t = maps(s, 1277, t, seq!['j', 'i'], seq!['じ']);
    let t = carries(s, 1288, t, seq!['j', 'j'], seq!['っ'], seq!['j']);
    let t = maps(s, 1306, t, seq!['j', 'o'], seq!['じ', 'ょ']);
    let t = maps(s, 1318, t, seq!['j', 'u'], seq!['じ', 'ゅ']);
    let t = maps(s, 1330, t, seq!['j', 'y', 'a'], seq!['じ', 'ゃ']);
    let t = maps(s, 1343, t, seq!['j', 'y', 'e'], seq!['じ', 'ぇ']);
    let t = maps(s, 1356, t, seq!['j', 'y', 'i'], seq!['じ', 'ぃ']);
    let t = maps(s, 1369, t, seq!['j', 'y', 'o'], seq!['じ', 'ょ']);
    let t = maps(s, 1382, t, seq!['j', 'y', 'u'], seq!['じ', 'ゅ']);
    let t = maps(s, 1395, t, seq!['k', 'a'], seq!['か']);
    let t = maps(s, 1406, t, seq!['k', 'e'], seq!['け']);
    let t = maps(s, 1417, t, seq!['k', 'i'], seq!['き']);
    let t = carries(s, 1428, t, seq!['k', 'k'], seq!['っ'], seq!['k']);
    let t = maps(s, 1446, t, seq!['k', 'o'], seq!['こ']);
    let t = maps(s, 1457, t, seq!['k', 'u'], seq!['く']);
    let t = maps(s, 1468, t, seq!['k', 'w', 'a'], seq!['く', 'ぁ']);
    let t = maps(s, 1481, t, seq!['k', 'w', 'e'], seq!['く', 'ぇ']);
    let t = maps(s, 1494, t, seq!['k', 'w', 'i'], seq!['く', 'ぃ']);
    let t = maps(s, 1507, t, seq!['k', 'w', 'o'], seq!['く', 'ぉ']);
    let t = maps(s, 1520, t, seq!['k', 'w', 'u'], seq!['く', 'ぅ']);
    let t = maps(s, 1533, t, seq!['k', 'y', 'a'], seq!['き', 'ゃ']);
    let t = maps(s, 1546, t, seq!['k', 'y', 'e'], seq!['き', 'ぇ']);
    let t = maps(s, 1559, t, seq!['k', 'y', 'i'], seq!['き', 'ぃ']);
    let t = maps(s, 1572, t, seq!['k', 'y', 'o'], seq!['き', 'ょ']);
    let t = maps(s, 1585, t, seq!['k', 'y', 'u'], seq!['き', 'ゅ']);
    let t = maps(s, 1598, t, seq!['l', 'a'], seq!['ぁ']);
    let t = maps(s, 1609, t, seq!['l', 'e'], seq!['ぇ']);
    let t = maps(s, 1620, t, seq!['l', 'i'], seq!['ぃ']);
    let t = maps(s, 1631, t, seq!['l', 'k', 'a'], seq!['ヵ']);
    let t = maps(s, 1643, t, seq!['l', 'k', 'e'], seq!['ヶ']);
    let t = maps(s, 1655, t, seq!['l', 'o'], seq!['ぉ']);
    let t = maps(s, 1666, t, seq!['l', 't', 's', 'u'], seq!['っ']);
    let t = maps(s, 1679, t, seq!['l', 't', 'u'], seq!['っ']);
    let t = maps(s, 1691, t, seq!['l', 'u'], seq!['ぅ']);
    let t = maps(s, 1702, t, seq!['l', 'w', 'a'], seq!['ゎ']);
    let t = maps(s, 1714, t, seq!['l', 'y', 'a'], seq!['ゃ']);
    let t = maps(s, 1726, t, seq!['l', 'y', 'e'], seq!['ぇ']);
    let t = maps(s, 1738, t, seq!['l', 'y', 'i'], seq!['ぃ']);
    let t = maps(s, 1750, t, seq!['l', 'y', 'o'], seq!['ょ']);
    let t = maps(s, 1762, t, seq!['l', 'y', 'u'], seq!['ゅ']);
    let t = maps(s, 1774, t, seq!['m', 'a'], seq!['ま']);
    let t = maps(s, 1785, t, seq!['m', 'e'], seq!['め']);
    let t = maps(s, 1796, t, seq!['m', 'i'], seq!['み']);
    let t = carries(s, 1807, t, seq!['m', 'm'], seq!['っ'], seq!['m']);
    t
}

/// The third lines of the table.
#[verifier::spinoff_prover]
#[verifier::rlimit(100)]
proof fn lemma_third_lines(t: Seq<EntryView>) -> (after: Seq<EntryView>)
    requires
        halfway(DEFAULT_TABLE@, 1825, t),
        t.len() == 146,
        place_of(t.last().key) == 230375424,
    ensures
        halfway(DEFAULT_TABLE@, 2726, after),
        after.len() == 219,
        place_of(after.last().key) == 245088256,
{
    let s = DEFAULT_TABLE@;
    reveal_strlit("\
[kana]\n\
\",\" = \"、\"\n\
\"-\" = \"ー\"\n\
\".\" = \"。\"\n\
\"/\" = \"・\"\n\
\"[\" = \"「\"\n\
\"]\" = \"」\"\n\
\"a\" = \"あ\"\n\
\"ba\" = \"ば\"\n\
\"bb\" = [\"っ\", \"b\"]\n\
\"be\" = \"べ\"\n\
\"bi\" = \"び\"\n\
\"bo\" = \"ぼ\"\n\
\"bu\" = \"ぶ\"\n\
\"bya\" = \"びゃ\"\n\
\"bye\" = \"びぇ\"\n\
\"byi\" = \"びぃ\"\n\
\"byo\" = \"びょ\"\n\
\"byu\" = \"びゅ\"\n\
\"ca\" = \"か\"\n\
\"cc\" = [\"っ\", \"c\"]\n\
\"ce\" = \"せ\"\n\
\"cha\" = \"ちゃ\"\n\
\"che\" = \"ちぇ\"\n\
\"chi\" = \"ち\"\n\
\"cho\" = \"ちょ\"\n\
\"chu\" = \"ちゅ\"\n\
\"ci\" = \"し\"\n\
\"co\" = \"こ\"\n\
\"cu\" = \"く\"\n\
\"cya\" = \"ちゃ\"\n\
\"cye\" = \"ちぇ\"\n\
\"cyi\" = \"ちぃ\"\n\
\"cyo\" = \"ちょ\"\n\
\"cyu\" = \"ちゅ\"\n\
\"da\" = \"だ\"\n\
\"dd\" = [\"っ\", \"d\"]\n\
\"de\" = \"で\"\n\
\"dha\" = \"でゃ\"\n\
\"dhe\" = \"でぇ\"\n\
\"dhi\" = \"でぃ\"\n\
\"dho\" = \"でょ\"\n\
\"dhu\" = \"でゅ\"\n\
\"di\" = \"ぢ\"\n\
\"do\" = \"ど\"\n\
\"du\" = \"づ\"\n\
\"dwa\" = \"どぁ\"\n\
\"dwe\" = \"どぇ\"\n\
\"dwi\" = \"どぃ\"\n\
\"dwo\" = \"どぉ\"\n\
\"dwu\" = \"どぅ\"\n\
\"dya\" = \"ぢゃ\"\n\
\"dye\" = \"ぢぇ\"\n\
\"dyi\" = \"ぢぃ\"\n\
\"dyo\" = \"ぢょ\"\n\
\"dyu\" = \"ぢゅ\"\n\
\"e\" = \"え\"\n\
\"fa\" = \"ふぁ\"\n\
\"fe\" = \"ふぇ\"\n\
\"ff\" = [\"っ\", \"f\"]\n\
\"fi\" = \"ふぃ\"\n\
\"fo\" = \"ふぉ\"\n\
\"fu\" = \"ふ\"\n\
\"fwa\" = \"ふぁ\"\n\
\"fwe\" = \"ふぇ\"\n\
\"fwi\" = \"ふぃ\"\n\
\"fwo\" = \"ふぉ\"\n\
\"fwu\" = \"ふぅ\"\n\
\"fya\" = \"ふゃ\"\n\
\"fye\" = \"ふぇ\"\n\
\"fyi\" = \"ふぃ\"\n\
\"fyo\" = \"ふょ\"\n\
\"fyu\" = \"ふゅ\"\n\
\"ga\" = \"が\"\n\
\"ge\" = \"げ\"\n\
\"gg\" = [\"っ\", \"g\"]\n\
\"gi\" = \"ぎ\"\n\
\"go\" = \"ご\"\n\
\"gu\" = \"ぐ\"\n\
\"gwa\" = \"ぐぁ\"\n\
\"gwe\" = \"ぐぇ\"\n\
\"gwi\" = \"ぐぃ\"\n\
\"gwo\" = \"ぐぉ\"\n\
\"gwu\" = \"ぐぅ\"\n\
\"gya\" = \"ぎゃ\"\n\
\"gye\" = \"ぎぇ\"\n\
\"gyi\" = \"ぎぃ\"\n\
\"gyo\" = \"ぎょ\"\n\
\"gyu\" = \"ぎゅ\"\n\
\"ha\" = \"は\"\n\
\"he\" = \"へ\"\n\
\"hh\" = [\"っ\", \"h\"]\n\
\"hi\" = \"ひ\"\n\
\"ho\" = \"ほ\"\n\
\"hu\" = \"ふ\"\n\
\"hya\" = \"ひゃ\"\n\
\"hye\" = \"ひぇ\"\n\
\"hyi\" = \"ひぃ\"\n\
\"hyo\" = \"ひょ\"\n\
\"hyu\" = \"ひゅ\"\n\
\"i\" = \"い\"\n\
\"ja\" = \"じゃ\"\n\
\"je\" = \"じぇ\"\n\
\"ji\" = \"じ\"\n\
\"jj\" = [\"っ\", \"j\"]\n\
\"jo\" = \"じょ\"\n\
\"ju\" = \"じゅ\"\n\
\"jya\" = \"じゃ\"\n\
\"jye\" = \"じぇ\"\n\
\"jyi\" = \"じぃ\"\n\
\"jyo\" = \"じょ\"\n\
\"jyu\" = \"じゅ\"\n\
\"ka\" = \"か\"\n\
\"ke\" = \"け\"\n\
\"ki\" = \"き\"\n\
\"kk\" = [\"っ\", \"k\"]\n\
\"ko\" = \"こ\"\n\
\"ku\" = \"く\"\n\
\"kwa\" = \"くぁ\"\n\
\"kwe\" = \"くぇ\"\n\
\"kwi\" = \"くぃ\"\n\
\"kwo\" = \"くぉ\"\n\
\"kwu\" = \"くぅ\"\n\
\"kya\" = \"きゃ\"\n\
\"kye\" = \"きぇ\"\n\
\"kyi\" = \"きぃ\"\n\
\"kyo\" = \"きょ\"\n\
\"kyu\" = \"きゅ\"\n\
\"la\" = \"ぁ\"\n\
\"le\" = \"ぇ\"\n\
\"li\" = \"ぃ\"\n\
\"lka\" = \"ヵ\"\n\
\"lke\" = \"ヶ\"\n\
\"lo\" = \"ぉ\"\n\
\"ltsu\" = \"っ\"\n\
\"ltu\" = \"っ\"\n\
\"lu\" = \"ぅ\"\n\
\"lwa\" = \"ゎ\"\n\
\"lya\" = \"ゃ\"\n\
\"lye\" = \"ぇ\"\n\
\"lyi\" = \"ぃ\"\n\
\"lyo\" = \"ょ\"\n\
\"lyu\" = \"ゅ\"\n\
\"ma\" = \"ま\"\n\
\"me\" = \"め\"\n\
\"mi\" = \"み\"\n\
\"mm\" = [\"っ\", \"m\"]\n\
\"mo\" = \"も\"\n\
\"mu\" = \"む\"\n\
\"mya\" = \"みゃ\"\n\
\"mye\" = \"みぇ\"\n\
\"myi\" = \"みぃ\"\n\
\"myo\" = \"みょ\"\n\
\"myu\" = \"みゅ\"\n\
\"n\" = \"ん\"\n\
\"n'\" = \"ん\"\n\
\"na\" = \"な\"\n\
\"ne\" = \"ね\"\n\
\"ni\" = \"に\"\n\
\"nn\" = \"ん\"\n\
\"no\" = \"の\"\n\
\"nu\" = \"ぬ\"\n\
\"nya\" = \"にゃ\"\n\
\"nye\" = \"にぇ\"\n\
\"nyi\" = \"にぃ\"\n\
\"nyo\" = \"にょ\"\n\
\"nyu\" = \"にゅ\"\n\
\"o\" = \"お\"\n\
\"pa\" = \"ぱ\"\n\
\"pe\" = \"ぺ\"\n\
\"pi\" = \"ぴ\"\n\
\"po\" = \"ぽ\"\n\
\"pp\" = [\"っ\", \"p\"]\n\
\"pu\" = \"ぷ\"\n\
\"pya\" = \"ぴゃ\"\n\
\"pye\" = \"ぴぇ\"\n\
\"pyi\" = \"ぴぃ\"\n\
\"pyo\" = \"ぴょ\"\n\
\"pyu\" = \"ぴゅ\"\n\
\"ra\" = \"ら\"\n\
\"re\" = \"れ\"\n\
\"ri\" = \"り\"\n\
\"ro\" = \"ろ\"\n\
\"rr\" = [\"っ\", \"r\"]\n\
\"ru\" = \"る\"\n\
\"rya\" = \"りゃ\"\n\
\"rye\" = \"りぇ\"\n\
\"ryi\" = \"りぃ\"\n\
\"ryo\" = \"りょ\"\n\
\"ryu\" = \"りゅ\"\n\
\"sa\" = \"さ\"\n\
\"se\" = \"せ\"\n\
\"sha\" = \"しゃ\"\n\
\"she\" = \"しぇ\"\n\
\"shi\" = \"し\"\n\
\"sho\" = \"しょ\"\n\
\"shu\" = \"しゅ\"\n\
\"si\" = \"し\"\n\
\"so\" = \"そ\"\n\
\"ss\" = [\"っ\", \"s\"]\n\
\"su\" = \"す\"\n\
\"swa\" = \"すぁ\"\n\
\"swe\" = \"すぇ\"\n\
\"swi\" = \"すぃ\"\n\
\"swo\" = \"すぉ\"\n\
\"swu\" = \"すぅ\"\n\
\"sya\" = \"しゃ\"\n\
\"sye\" = \"しぇ\"\n\
\"syi\" = \"しぃ\"\n\
\"syo\" = \"しょ\"\n\
\"syu\" = \"しゅ\"\n\
\"ta\" = \"た\"\n\
\"te\" = \"て\"\n\
\"tha\" = \"てゃ\"\n\
\"the\" = \"てぇ\"\n\
\"thi\" = \"てぃ\"\n\
\"tho\" = \"てょ\"\n\
\"thu\" = \"てゅ\"\n\
\"ti\" = \"ち\"\n\
\"to\" = \"と\"\n\
\"tsa\" = \"つぁ\"\n\
\"tse\" = \"つぇ\"\n\
\"tsi\" = \"つぃ\"\n\
\"tso\" = \"つぉ\"\n\
\"tsu\" = \"つ\"\n\
\"tt\" = [\"っ\", \"t\"]\n\
\"tu\" = \"つ\"\n\
\"twa\" = \"とぁ\"\n\
\"twe\" = \"とぇ\"\n\
\"twi\" = \"とぃ\"\n\
\"two\" = \"とぉ\"\n\
\"twu\" = \"とぅ\"\n\
\"tya\" = \"ちゃ\"\n\
\"tye\" = \"ちぇ\"\n\
\"tyi\" = \"ちぃ\"\n\
\"tyo\" = \"ちょ\"\n\
\"tyu\" = \"ちゅ\"\n\
\"u\" = \"う\"\n\
\"va\" = \"ゔぁ\"\n\
\"ve\" = \"ゔぇ\"\n\
\"vi\" = \"ゔぃ\"\n\
\"vo\" = \"ゔぉ\"\n\
\"vu\" = \"ゔ\"\n\
\"vv\" = [\"っ\", \"v\"]\n\
\"vya\" = \"ゔゃ\"\n\
\"vye\" = \"ゔぇ\"\n\
\"vyi\" = \"ゔぃ\"\n\
\"vyo\" = \"ゔょ\"\n\
\"vyu\" = \"ゔゅ\"\n\
\"wa\" = \"わ\"\n\
\"we\" = \"うぇ\"\n\
\"wha\" = \"うぁ\"\n\
\"whe\" = \"うぇ\"\n\
\"whi\" = \"うぃ\"\n\
\"who\" = \"うぉ\"\n\
\"whu\" = \"う\"\n\
\"wi\" = \"うぃ\"\n\
\"wo\" = \"を\"\n\
\"wu\" = \"う\"\n\
\"ww\" = [\"っ\", \"w\"]\n\
\"xa\" = \"ぁ\"\n\
\"xe\" = \"ぇ\"\n\
\"xi\" = \"ぃ\"\n\
\"xka\" = \"ヵ\"\n\
\"xke\" = \"ヶ\"\n\
\"xn\" = \"ん\"\n\
\"xo\" = \"ぉ\"\n\
\"xtsu\" = \"っ\"\n\
\"xtu\" = \"っ\"\n\
\"xu\" = \"ぅ\"\n\
\"xwa\" = \"ゎ\"\n\
\"xya\" = \"ゃ\"\n\
\"xye\" = \"ぇ\"\n\
\"xyi\" = \"ぃ\"\n\
\"xyo\" = \"ょ\"\n\
\"xyu\" = \"ゅ\"\n\
\"ya\" = \"や\"\n\
\"ye\" = \"いぇ\"\n\
\"yi\" = \"い\"\n\
\"yo\" = \"よ\"\n\
\"yu\" = \"ゆ\"\n\
\"yy\" = [\"っ\", \"y\"]\n\
\"za\" = \"ざ\"\n\
\"ze\" = \"ぜ\"\n\
\"zi\" = \"じ\"\n\
\"zo\" = \"ぞ\"\n\
\"zu\" = \"ず\"\n\
\"zya\" = \"じゃ\"\n\
\"zye\" = \"じぇ\"\n\
\"zyi\" = \"じぃ\"\n\
\"zyo\" = \"じょ\"\n\
\"zyu\" = \"じゅ\"\n\
\"zz\" = [\"っ\", \"z\"]\n\
");
    reveal_strlit("\" = [\"");
    reveal_strlit("\", \"");
    let t = maps(s, 1825, t, seq!['m', 'o'], seq!['も']);
    let t = maps(s, 1836, t, seq!['m', 'u'], seq!['む']);
    let t = maps(s, 1847, t, seq!['m', 'y', 'a'], seq!['み', 'ゃ']);
    let t = maps(s, 1860, t, seq!['m', 'y', 'e'], seq!['み', 'ぇ']);
    let t = maps(s, 1873, t, seq!['m', 'y', 'i'], seq!['み', 'ぃ']);
    let t = maps(s, 1886, t, seq!['m', 'y', 'o'], seq!['み', 'ょ']);
    let t = maps(s, 1899, t, seq!['m', 'y', 'u'], seq!['み', 'ゅ']);
    let t = maps(s, 1912, t, seq!['n'], seq!['ん']);
    let t = maps(s, 1922, t, seq!['n', '\''], seq!['ん']);
    let t = maps(s, 1933, t, seq!['n', 'a'], seq!['な']);
    let t = maps(s, 1944, t, seq!['n', 'e'], seq!['ね']);
    let t = maps(s, 1955, t, seq!['n', 'i'], seq!['に']);
    let t = maps(s, 1966, t, seq!['n', 'n'], seq!['ん']);
    let t = maps(s, 1977, t, seq!['n', 'o'], seq!['の']);
    let t = maps(s, 1988, t, seq!['n', 'u'], seq!['ぬ']);
    let t = maps(s, 1999, t, seq!['n', 'y', 'a'], seq!['に', 'ゃ']);
    let t = maps(s, 2012, t, seq!['n', 'y', 'e'], seq!['に', 'ぇ']);
    let t = maps(s, 2025, t, seq!['n', 'y', 'i'], seq!['に', 'ぃ']);
    let t = maps(s, 2038, t, seq!['n', 'y', 'o'], seq!['に', 'ょ']);
    let t = maps(s, 2051, t, seq!['n', 'y', 'u'], seq!['に', 'ゅ']);
    let t = maps(s, 2064, t, seq!['o'], seq!['お']);
    let t = maps(s, 2074, t, seq!['p', 'a'], seq!['ぱ']);
    let t = maps(s, 2085, t, seq!['p', 'e'], seq!['ぺ']);
    let t = maps(s, 2096, t, seq!['p', 'i'], seq!['ぴ']);
    let t = maps(s, 2107, t, seq!['p', 'o'], seq!['ぽ']);
    let t = carries(s, 2118, t, seq!['p', 'p'], seq!['っ'], seq!['p']);
    let t = maps(s, 2136, t, seq!['p', 'u'], seq!['ぷ']);
    let t = maps(s, 2147, t, seq!['p', 'y', 'a'], seq!['ぴ', 'ゃ']);
    let t = maps(s, 2160, t, seq!['p', 'y', 'e'], seq!['ぴ', 'ぇ']);
    let t = maps(s, 2173, t, seq!['p', 'y', 'i'], seq!['ぴ', 'ぃ']);
    let t = maps(s, 2186, t, seq!['p', 'y', 'o'], seq!['ぴ', 'ょ']);
    let t = maps(s, 2199, t, seq!['p', 'y', 'u'], seq!['ぴ', 'ゅ']);
    let t = maps(s, 2212, t, seq!['r', 'a'], seq!['ら']);
    let t = maps(s, 2223, t, seq!['r', 'e'], seq!['れ']);
    let t = maps(s, 2234, t, seq!['r', 'i'], seq!['り']);
    let t = maps(s, 2245, t, seq!['r', 'o'], seq!['ろ']);
    let t = carries(s, 2256, t, seq!['r', 'r'], seq!['っ'], seq!['r']);
    let t = maps(s, 2274, t, seq!['r', 'u'], seq!['る']);
    let t = maps(s, 2285, t, seq!['r', 'y', 'a'], seq!['り', 'ゃ']);
    let t = maps(s, 2298, t, seq!['r', 'y', 'e'], seq!['り', 'ぇ']);
    let t = maps(s, 2311, t, seq!['r', 'y', 'i'], seq!['り', 'ぃ']);
    let t = maps(s, 2324, t, seq!['r', 'y', 'o'], seq!['り', 'ょ']);
    let t = maps(s, 2337, t, seq!['r', 'y', 'u'], seq!['り', 'ゅ']);
    let t = maps(s, 2350, t, seq!['s', 'a'], seq!['さ']);
    let t = maps(s, 2361, t, seq!['s', 'e'], seq!['せ']);
    let t = maps(s, 2372, t, seq!['s', 'h', 'a'], seq!['し', 'ゃ']);
    let t = maps(s, 2385, t, seq!['s', 'h', 'e'], seq!['し', 'ぇ']);
    let t = maps(s, 2398, t, seq!['s', 'h', 'i'], seq!['し']);
    let t = maps(s, 2410, t, seq!['s', 'h', 'o'], seq!['し', 'ょ']);
    let t = maps(s, 2423, t, seq!['s', 'h', 'u'], seq!['し', 'ゅ']);
    let t = maps(s, 2436, t, seq!['s', 'i'], seq!['し']);
    let t = maps(s, 2447, t, seq!['s', 'o'], seq!['そ']);
    let t = carries(s, 2458, t, seq!['s', 's'], seq!['っ'], seq!['s']);
    let t = maps(s, 2476, t, seq!['s', 'u'], seq!['す']);
    let t = maps(s, 2487, t, seq!['s', 'w', 'a'], seq!['す', 'ぁ']);
    let t = maps(s, 2500, t, seq!['s', 'w', 'e'], seq!['す', 'ぇ']);
    let t = maps(s, 2513, t, seq!['s', 'w', 'i'], seq!['す', 'ぃ']);
    let t = maps(s, 2526, t, seq!['s', 'w', 'o'], seq!['す', 'ぉ']);
    let t = maps(s, 2539, t, seq!['s', 'w', 'u'], seq!['す', 'ぅ']);
    let t = maps(s, 2552, t, seq!['s', 'y', 'a'], seq!['し', 'ゃ']);
    let t = maps(s, 2565, t, seq!['s', 'y', 'e'], seq!['し', 'ぇ']);
    let t = maps(s, 2578, t, seq!['s', 'y', 'i'], seq!['し', 'ぃ']);
    let t = maps(s, 2591, t, seq!['s', 'y', 'o'], seq!['し', 'ょ']);
    let t = maps(s, 2604, t, seq!['s', 'y', 'u'], seq!['し', 'ゅ']);
    let t = maps(s, 2617, t, seq!['t', 'a'], seq!['た']);
    let t = maps(s, 2628, t, seq!['t', 'e'], seq!['て']);
    let t = maps(s, 2639, t, seq!['t', 'h', 'a'], seq!['て', 'ゃ']);
    let t = maps(s, 2652, t, seq!['t', 'h', 'e'], seq!['て', 'ぇ']);
    let t = maps(s, 2665, t, seq!['t', 'h', 'i'], seq!['て', 'ぃ']);
    let t = maps(s, 2678, t, seq!['t', 'h', 'o'], seq!['て', 'ょ']);
    let t = maps(s, 2691, t, seq!['t', 'h', 'u'], seq!['て', 'ゅ']);
    let t = maps(s, 2704, t, seq!['t', 'i'], seq!['ち']);
    let t = maps(s, 2715, t, seq!['t', 'o'], seq!['と']);
    t
}

/// The fourth lines of the table.
#[verifier::spinoff_prover]
#[verifier::rlimit(100)]
proof fn lemma_fourth_lines(t: Seq<EntryView>) -> (after: Seq<EntryView>)
    requires
        halfway(DEFAULT_TABLE@, 2726, t),
        t.len() == 219,
        place_of(t.last().key) == 245088256,
    ensures
        halfway(DEFAULT_TABLE@, 3639, after),
        after.len() == 292,
        place_of(after.last().key) == 257851392,
        DEFAULT_TABLE@.len() == 3639,
{
    let s = DEFAULT_TABLE@;
    reveal_strlit("\
[kana]\n\
\",\" = \"、\"\n\
\"-\" = \"ー\"\n\
\".\" = \"。\"\n\
\"/\" = \"・\"\n\
\"[\" = \"「\"\n\
\"]\" = \"」\"\n\
\"a\" = \"あ\"\n\
\"ba\" = \"ば\"\n\
\"bb\" = [\"っ\", \"b\"]\n\
\"be\" = \"べ\"\n\
\"bi\" = \"び\"\n\
\"bo\" = \"ぼ\"\n\
\"bu\" = \"ぶ\"\n\
\"bya\" = \"びゃ\"\n\
\"bye\" = \"びぇ\"\n\
\"byi\" = \"びぃ\"\n\
\"byo\" = \"びょ\"\n\
\"byu\" = \"びゅ\"\n\
\"ca\" = \"か\"\n\
\"cc\" = [\"っ\", \"c\"]\n\
\"ce\" = \"せ\"\n\
\"cha\" = \"ちゃ\"\n\
\"che\" = \"ちぇ\"\n\
\"chi\" = \"ち\"\n\
\"cho\" = \"ちょ\"\n\
\"chu\" = \"ちゅ\"\n\
\"ci\" = \"し\"\n\
\"co\" = \"こ\"\n\
\"cu\" = \"く\"\n\
\"cya\" = \"ちゃ\"\n\
\"cye\" = \"ちぇ\"\n\
\"cyi\" = \"ちぃ\"\n\
\"cyo\" = \"ちょ\"\n\
\"cyu\" = \"ちゅ\"\n\
\"da\" = \"だ\"\n\
\"dd\" = [\"っ\", \"d\"]\n\
\"de\" = \"で\"\n\
\"dha\" = \"でゃ\"\n\
\"dhe\" = \"でぇ\"\n\
\"dhi\" = \"でぃ\"\n\
\"dho\" = \"でょ\"\n\
\"dhu\" = \"でゅ\"\n\
\"di\" = \"ぢ\"\n\
\"do\" = \"ど\"\n\
\"du\" = \"づ\"\n\
\"dwa\" = \"どぁ\"\n\
\"dwe\" = \"どぇ\"\n\
\"dwi\" = \"どぃ\"\n\
\"dwo\" = \"どぉ\"\n\
\"dwu\" = \"どぅ\"\n\
\"dya\" = \"ぢゃ\"\n\
\"dye\" = \"ぢぇ\"\n\
\"dyi\" = \"ぢぃ\"\n\
\"dyo\" = \"ぢょ\"\n\
\"dyu\" = \"ぢゅ\"\n\
\"e\" = \"え\"\n\
\"fa\" = \"ふぁ\"\n\
\"fe\" = \"ふぇ\"\n\
\"ff\" = [\"っ\", \"f\"]\n\
\"fi\" = \"ふぃ\"\n\
\"fo\" = \"ふぉ\"\n\
\"fu\" = \"ふ\"\n\
\"fwa\" = \"ふぁ\"\n\
\"fwe\" = \"ふぇ\"\n\
\"fwi\" = \"ふぃ\"\n\
\"fwo\" = \"ふぉ\"\n\
\"fwu\" = \"ふぅ\"\n\
\"fya\" = \"ふゃ\"\n\
\"fye\" = \"ふぇ\"\n\
\"fyi\" = \"ふぃ\"\n\
\"fyo\" = \"ふょ\"\n\
\"fyu\" = \"ふゅ\"\n\
\"ga\" = \"が\"\n\
\"ge\" = \"げ\"\n\
\"gg\" = [\"っ\", \"g\"]\n\
\"gi\" = \"ぎ\"\n\
\"go\" = \"ご\"\n\
\"gu\" = \"ぐ\"\n\
\"gwa\" = \"ぐぁ\"\n\
\"gwe\" = \"ぐぇ\"\n\
\"gwi\" = \"ぐぃ\"\n\
\"gwo\" = \"ぐぉ\"\n\
\"gwu\" = \"ぐぅ\"\n\
\"gya\" = \"ぎゃ\"\n\
\"gye\" = \"ぎぇ\"\n\
\"gyi\" = \"ぎぃ\"\n\
\"gyo\" = \"ぎょ\"\n\
\"gyu\" = \"ぎゅ\"\n\
\"ha\" = \"は\"\n\
\"he\" = \"へ\"\n\
\"hh\" = [\"っ\", \"h\"]\n\
\"hi\" = \"ひ\"\n\
\"ho\" = \"ほ\"\n\
\"hu\" = \"ふ\"\n\
\"hya\" = \"ひゃ\"\n\
\"hye\" = \"ひぇ\"\n\
\"hyi\" = \"ひぃ\"\n\
\"hyo\" = \"ひょ\"\n\
\"hyu\" = \"ひゅ\"\n\
\"i\" = \"い\"\n\
\"ja\" = \"じゃ\"\n\
\"je\" = \"じぇ\"\n\
\"ji\" = \"じ\"\n\
\"jj\" = [\"っ\", \"j\"]\n\
\"jo\" = \"じょ\"\n\
\"ju\" = \"じゅ\"\n\
\"jya\" = \"じゃ\"\n\
\"jye\" = \"じぇ\"\n\
\"jyi\" = \"じぃ\"\n\
\"jyo\" = \"じょ\"\n\
\"jyu\" = \"じゅ\"\n\
\"ka\" = \"か\"\n\
\"ke\" = \"け\"\n\
\"ki\" = \"き\"\n\
\"kk\" = [\"っ\", \"k\"]\n\
\"ko\" = \"こ\"\n\
\"ku\" = \"く\"\n\
\"kwa\" = \"くぁ\"\n\
\"kwe\" = \"くぇ\"\n\
\"kwi\" = \"くぃ\"\n\
\"kwo\" = \"くぉ\"\n\
\"kwu\" = \"くぅ\"\n\
\"kya\" = \"きゃ\"\n\
\"kye\" = \"きぇ\"\n\
\"kyi\" = \"きぃ\"\n\
\"kyo\" = \"きょ\"\n\
\"kyu\" = \"きゅ\"\n\
\"la\" = \"ぁ\"\n\
\"le\" = \"ぇ\"\n\
\"li\" = \"ぃ\"\n\
\"lka\" = \"ヵ\"\n\
\"lke\" = \"ヶ\"\n\
\"lo\" = \"ぉ\"\n\
\"ltsu\" = \"っ\"\n\
\"ltu\" = \"っ\"\n\
\"lu\" = \"ぅ\"\n\
\"lwa\" = \"ゎ\"\n\
\"lya\" = \"ゃ\"\n\
\"lye\" = \"ぇ\"\n\
\"lyi\" = \"ぃ\"\n\
\"lyo\" = \"ょ\"\n\
\"lyu\" = \"ゅ\"\n\
\"ma\" = \"ま\"\n\
\"me\" = \"め\"\n\
\"mi\" = \"み\"\n\
\"mm\" = [\"っ\", \"m\"]\n\
\"mo\" = \"も\"\n\
\"mu\" = \"む\"\n\
\"mya\" = \"みゃ\"\n\
\"mye\" = \"みぇ\"\n\
\"myi\" = \"みぃ\"\n\
\"myo\" = \"みょ\"\n\
\"myu\" = \"みゅ\"\n\
\"n\" = \"ん\"\n\
\"n'\" = \"ん\"\n\
\"na\" = \"な\"\n\
\"ne\" = \"ね\"\n\
\"ni\" = \"に\"\n\
\"nn\" = \"ん\"\n\
\"no\" = \"の\"\n\
\"nu\" = \"ぬ\"\n\
\"nya\" = \"にゃ\"\n\
\"nye\" = \"にぇ\"\n\
\"nyi\" = \"にぃ\"\n\
\"nyo\" = \"にょ\"\n\
\"nyu\" = \"にゅ\"\n\
\"o\" = \"お\"\n\
\"pa\" = \"ぱ\"\n\
\"pe\" = \"ぺ\"\n\
\"pi\" = \"ぴ\"\n\
\"po\" = \"ぽ\"\n\
\"pp\" = [\"っ\", \"p\"]\n\
\"pu\" = \"ぷ\"\n\
\"pya\" = \"ぴゃ\"\n\
\"pye\" = \"ぴぇ\"\n\
\"pyi\" = \"ぴぃ\"\n\
\"pyo\" = \"ぴょ\"\n\
\"pyu\" = \"ぴゅ\"\n\
\"ra\" = \"ら\"\n\
\"re\" = \"れ\"\n\
\"ri\" = \"り\"\n\
\"ro\" = \"ろ\"\n\
\"rr\" = [\"っ\", \"r\"]\n\
\"ru\" = \"る\"\n\
\"rya\" = \"りゃ\"\n\
\"rye\" = \"りぇ\"\n\
\"ryi\" = \"りぃ\"\n\
\"ryo\" = \"りょ\"\n\
\"ryu\" = \"りゅ\"\n\
\"sa\" = \"さ\"\n\
\"se\" = \"せ\"\n\
\"sha\" = \"しゃ\"\n\
\"she\" = \"しぇ\"\n\
\"shi\" = \"し\"\n\
\"sho\" = \"しょ\"\n\
\"shu\" = \"しゅ\"\n\
\"si\" = \"し\"\n\
\"so\" = \"そ\"\n\
\"ss\" = [\"っ\", \"s\"]\n\
\"su\" = \"す\"\n\
\"swa\" = \"すぁ\"\n\
\"swe\" = \"すぇ\"\n\
\"swi\" = \"すぃ\"\n\
\"swo\" = \"すぉ\"\n\
\"swu\" = \"すぅ\"\n\
\"sya\" = \"しゃ\"\n\
\"sye\" = \"しぇ\"\n\
\"syi\" = \"しぃ\"\n\
\"syo\" = \"しょ\"\n\
\"syu\" = \"しゅ\"\n\
\"ta\" = \"た\"\n\
\"te\" = \"て\"\n\
\"tha\" = \"てゃ\"\n\
\"the\" = \"てぇ\"\n\
\"thi\" = \"てぃ\"\n\
\"tho\" = \"てょ\"\n\
\"thu\" = \"てゅ\"\n\
\"ti\" = \"ち\"\n\
\"to\" = \"と\"\n\
\"tsa\" = \"つぁ\"\n\
\"tse\" = \"つぇ\"\n\
\"tsi\" = \"つぃ\"\n\
\"tso\" = \"つぉ\"\n\
\"tsu\" = \"つ\"\n\
\"tt\" = [\"っ\", \"t\"]\n\
\"tu\" = \"つ\"\n\
\"twa\" = \"とぁ\"\n\
\"twe\" = \"とぇ\"\n\
\"twi\" = \"とぃ\"\n\
\"two\" = \"とぉ\"\n\
\"twu\" = \"とぅ\"\n\
\"tya\" = \"ちゃ\"\n\
\"tye\" = \"ちぇ\"\n\
\"tyi\" = \"ちぃ\"\n\
\"tyo\" = \"ちょ\"\n\
\"tyu\" = \"ちゅ\"\n\
\"u\" = \"う\"\n\
\"va\" = \"ゔぁ\"\n\
\"ve\" = \"ゔぇ\"\n\
\"vi\" = \"ゔぃ\"\n\
\"vo\" = \"ゔぉ\"\n\
\"vu\" = \"ゔ\"\n\
\"vv\" = [\"っ\", \"v\"]\n\
\"vya\" = \"ゔゃ\"\n\
\"vye\" = \"ゔぇ\"\n\
\"vyi\" = \"ゔぃ\"\n\
\"vyo\" = \"ゔょ\"\n\
\"vyu\" = \"ゔゅ\"\n\
\"wa\" = \"わ\"\n\
\"we\" = \"うぇ\"\n\
\"wha\" = \"うぁ\"\n\
\"whe\" = \"うぇ\"\n\
\"whi\" = \"うぃ\"\n\
\"who\" = \"うぉ\"\n\
\"whu\" = \"う\"\n\
\"wi\" = \"うぃ\"\n\
\"wo\" = \"を\"\n\
\"wu\" = \"う\"\n\
\"ww\" = [\"っ\", \"w\"]\n\
\"xa\" = \"ぁ\"\n\
\"xe\" = \"ぇ\"\n\
\"xi\" = \"ぃ\"\n\
\"xka\" = \"ヵ\"\n\
\"xke\" = \"ヶ\"\n\
\"xn\" = \"ん\"\n\
\"xo\" = \"ぉ\"\n\
\"xtsu\" = \"っ\"\n\
\"xtu\" = \"っ\"\n\
\"xu\" = \"ぅ\"\n\
\"xwa\" = \"ゎ\"\n\
\"xya\" = \"ゃ\"\n\
\"xye\" = \"ぇ\"\n\
\"xyi\" = \"ぃ\"\n\
\"xyo\" = \"ょ\"\n\
\"xyu\" = \"ゅ\"\n\
\"ya\" = \"や\"\n\
\"ye\" = \"いぇ\"\n\
\"yi\" = \"い\"\n\
\"yo\" = \"よ\"\n\
\"yu\" = \"ゆ\"\n\
\"yy\" = [\"っ\", \"y\"]\n\
\"za\" = \"ざ\"\n\
\"ze\" = \"ぜ\"\n\
\"zi\" = \"じ\"\n\
\"zo\" = \"ぞ\"\n\
\"zu\" = \"ず\"\n\
\"zya\" = \"じゃ\"\n\
\"zye\" = \"じぇ\"\n\
\"zyi\" = \"じぃ\"\n\
\"zyo\" = \"じょ\"\n\
\"zyu\" = \"じゅ\"\n\
\"zz\" = [\"っ\", \"z\"]\n\
");
    reveal_strlit("\" = [\"");
    reveal_strlit("\", \"");
    let t = maps(s, 2726, t, seq!['t', 's', 'a'], seq!['つ', 'ぁ']);
    let t = maps(s, 2739, t, seq!['t', 's', 'e'], seq!['つ', 'ぇ']);
    let t = maps(s, 2752, t, seq!['t', 's', 'i'], seq!['つ', 'ぃ']);
    let t = maps(s, 2765, t, seq!['t', 's', 'o'], seq!['つ', 'ぉ']);
    let t = maps(s, 2778, t, seq!['t', 's', 'u'], seq!['つ']);
    let t = carries(s, 2790, t, seq!['t', 't'], seq!['っ'], seq!['t']);
    let t = maps(s, 2808, t, seq!['t', 'u'], seq!['つ']);
    let t = maps(s, 2819, t, seq!['t', 'w', 'a'], seq!['と', 'ぁ']);
    let t = maps(s, 2832, t, seq!['t', 'w', 'e'], seq!['と', 'ぇ']);
    let t = maps(s, 2845, t, seq!['t', 'w', 'i'], seq!['と', 'ぃ']);
    let t = maps(s, 2858, t, seq!['t', 'w', 'o'], seq!['と', 'ぉ']);
    let t = maps(s, 2871, t, seq!['t', 'w', 'u'], seq!['と', 'ぅ']);
    let t = maps(s, 2884, t, seq!['t', 'y', 'a'], seq!['ち', 'ゃ']);
    let t = maps(s, 2897, t, seq!['t', 'y', 'e'], seq!['ち', 'ぇ']);
    let t = maps(s, 2910, t, seq!['t', 'y', 'i'], seq!['ち', 'ぃ']);
    let t = maps(s, 2923, t, seq!['t', 'y', 'o'], seq!['ち', 'ょ']);
    let t = maps(s, 2936, t, seq!['t', 'y', 'u'], seq!['ち', 'ゅ']);
    let t = maps(s, 2949, t, seq!['u'], seq!['う']);
    let t = maps(s, 2959, t, seq!['v', 'a'], seq!['ゔ', 'ぁ']);
    let t = maps(s, 2971, t, seq!['v', 'e'], seq!['ゔ', 'ぇ']);
    let t = maps(s, 2983, t, seq!['v', 'i'], seq!['ゔ', 'ぃ']);
    let t = maps(s, 2995, t, seq!['v', 'o'], seq!['ゔ', 'ぉ']);
    let t = maps(s, 3007, t, seq!['v', 'u'], seq!['ゔ']);
    let t = carries(s, 3018, t, seq!['v', 'v'], seq!['っ'], seq!['v']);
    let t = maps(s, 3036, t, seq!['v', 'y', 'a'], seq!['ゔ', 'ゃ']);
    let t = maps(s, 3049, t, seq!['v', 'y', 'e'], seq!['ゔ', 'ぇ']);
    let t = maps(s, 3062, t, seq!['v', 'y', 'i'], seq!['ゔ', 'ぃ']);
    let t = maps(s, 3075, t, seq!['v', 'y', 'o'], seq!['ゔ', 'ょ']);
    let t = maps(s, 3088, t, seq!['v', 'y', 'u'], seq!['ゔ', 'ゅ']);
    let t = maps(s, 3101, t, seq!['w', 'a'], seq!['わ']);
    let t = maps(s, 3112, t, seq!['w', 'e'], seq!['う', 'ぇ']);
    let t = maps(s, 3124, t, seq!['w', 'h', 'a'], seq!['う', 'ぁ']);
    let t = maps(s, 3137, t, seq!['w', 'h', 'e'], seq!['う', 'ぇ']);
    let t = maps(s, 3150, t, seq!['w', 'h', 'i'], seq!['う', 'ぃ']);
    let t = maps(s, 3163, t, seq!['w', 'h', 'o'], seq!['う', 'ぉ']);
    let t = maps(s, 3176, t, seq!['w', 'h', 'u'], seq!['う']);
    let t = maps(s, 3188, t, seq!['w', 'i'], seq!['う', 'ぃ']);
    let t = maps(s, 3200, t, seq!['w', 'o'], seq!['を']);
    let t = maps(s, 3211, t, seq!['w', 'u'], seq!['う']);
    let t = carries(s, 3222, t, seq!['w', 'w'], seq!['っ'], seq!['w']);
    let t = maps(s, 3240, t, seq!['x', 'a'], seq!['ぁ']);
    let t = maps(s, 3251, t, seq!['x', 'e'], seq!['ぇ']);
    let t = maps(s, 3262, t, seq!['x', 'i'], seq!['ぃ']);
    let t = maps(s, 3273, t, seq!['x', 'k', 'a'], seq!['ヵ']);
    let t = maps(s, 3285, t, seq!['x', 'k', 'e'], seq!['ヶ']);
    let t = maps(s, 3297, t, seq!['x', 'n'], seq!['ん']);
    let t = maps(s, 3308, t, seq!['x', 'o'], seq!['ぉ']);
    let t = maps(s, 3319, t, seq!['x', 't', 's', 'u'], seq!['っ']);
    let t = maps(s, 3332, t, seq!['x', 't', 'u'], seq!['っ']);
    let t = maps(s, 3344, t, seq!['x', 'u'], seq!['ぅ']);
    let t = maps(s, 3355, t, seq!['x', 'w', 'a'], seq!['ゎ']);
    let t = maps(s, 3367, t, seq!['x', 'y', 'a'], seq!['ゃ']);
    let t = maps(s, 3379, t, seq!['x', 'y', 'e'], seq!['ぇ']);
    let t = maps(s, 3391, t, seq!['x', 'y', 'i'], seq!['ぃ']);
    let t = maps(s, 3403, t, seq!['x', 'y', 'o'], seq!['ょ']);
    let t = maps(s, 3415, t, seq!['x', 'y', 'u'], seq!['ゅ']);
    let t = maps(s, 3427, t, seq!['y', 'a'], seq!['や']);
    let t = maps(s, 3438, t, seq!['y', 'e'], seq!['い', 'ぇ']);
    let t = maps(s, 3450, t, seq!['y', 'i'], seq!['い']);
    let t = maps(s, 3461, t, seq!['y', 'o'], seq!['よ']);
    let t = maps(s, 3472, t, seq!['y', 'u'], seq!['ゆ']);
    let t = carries(s, 3483, t, seq!['y', 'y'], seq!['っ'], seq!['y']);
    let t = maps(s, 3501, t, seq!['z', 'a'], seq!['ざ']);
    let t = maps(s, 3512, t, seq!['z', 'e'], seq!['ぜ']);
    let t = maps(s, 3523, t, seq!['z', 'i'], seq!['じ']);
    let t = maps(s, 3534, t, seq!['z', 'o'], seq!['ぞ']);
    let t = maps(s, 3545, t, seq!['z', 'u'], seq!['ず']);
    let t = maps(s, 3556, t, seq!['z', 'y', 'a'], seq!['じ', 'ゃ']);
    let t = maps(s, 3569, t, seq!['z', 'y', 'e'], seq!['じ', 'ぇ']);
    let t = maps(s, 3582, t, seq!['z', 'y', 'i'], seq!['じ', 'ぃ']);
    let t = maps(s, 3595, t, seq!['z', 'y', 'o'], seq!['じ', 'ょ']);
    let t = maps(s, 3608, t, seq!['z', 'y', 'u'], seq!['じ', 'ゅ']);
    let t = carries(s, 3621, t, seq!['z', 'z'], seq!['っ'], seq!['z']);
    t
}

/// The shipped table compiles, with a mapping for each of its lines.
pub proof fn shipped_table_compiles(r: Result<Table, TableError>)
    requires
        table::source_compiles_to(DEFAULT_TABLE@, r),
    ensures
        r matches Ok(compiled) && compiled.wf() && compiled@.len() == 292,
{
    let t = lemma_first_lines();
    let t = lemma_second_lines(t);
    let t = lemma_third_lines(t);
    let t = lemma_fourth_lines(t);
    lemma_end(DEFAULT_TABLE@, t);
    assert(r is Ok);
    laws::compiled_tables_are_not_empty(DEFAULT_TABLE@, r->Ok_0);
}

} // verus!
