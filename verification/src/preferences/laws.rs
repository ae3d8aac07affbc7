//! What holds of preferences as a whole.

use super::model::{NotationStyle, Preferences};
use super::parse;
use super::profiles;
use super::profiles::ProfileView;
use super::serialize;
use super::support::InputSupport;
use super::CONFIG_FORMAT_VERSION;
use crate::config;
use crate::config::{EntryView, SectionView};
use crate::config_text;
use crate::input_repair::kana;
use crate::keymap;
use crate::strings;
use vstd::prelude::*;

verus! {

// ---------------------------------------------------------------------------
// Conventions of writing.

/// No two conventions fix the same, not even without the width of the space.
pub proof fn conventions_differ(a: NotationStyle, b: NotationStyle)
    ensures
        a.fixes().0 == b.fixes().0 ==> a == b,
{
}

/// Applying a convention and reading it off again gives the same convention; what
/// it does not fix stays, and the first one fixes what the preferences are at first.
pub proof fn applied_conventions_read_back(style: NotationStyle, before: Preferences)
    ensures
        ({
            let after = Preferences {
                normalizer: style.fixes().0,
                space_width: style.fixes().1,
                ..before
            };
            forall|other: NotationStyle|
                (#[trigger] other.fixes() == (after.normalizer, after.space_width)) <==> other
                    == style
        }),
        NotationStyle::Standard.fixes() == (
            Preferences::initial().normalizer,
            Preferences::initial().space_width,
        ),
{
}

// ---------------------------------------------------------------------------
// Profiles.

/// Names that are the same but for case name the same executable.
pub proof fn lemma_same_name(a: Seq<char>, b: Seq<char>, c: Seq<char>)
    ensures
        profiles::same_name(a, a),
        profiles::same_name(a, b) == profiles::same_name(b, a),
        profiles::same_name(a, b) && profiles::same_name(b, c) ==> profiles::same_name(a, c),
{
    if profiles::same_name(a, b) {
        assert forall|i: int| 0 <= i < b.len() implies kana::lower(#[trigger] b[i]) == kana::lower(
            a[i],
        ) by {
            assert(kana::lower(a[i]) == kana::lower(b[i]));
        }
    }
    if profiles::same_name(b, a) {
        assert forall|i: int| 0 <= i < a.len() implies kana::lower(#[trigger] a[i]) == kana::lower(
            b[i],
        ) by {
            assert(kana::lower(b[i]) == kana::lower(a[i]));
        }
    }
    if profiles::same_name(a, b) && profiles::same_name(b, c) {
        assert forall|i: int| 0 <= i < a.len() implies kana::lower(#[trigger] a[i]) == kana::lower(
            c[i],
        ) by {
            assert(kana::lower(b[i]) == kana::lower(c[i]));
        }
    }
}

pub proof fn lemma_profile_for(all: Seq<ProfileView>, name: Seq<char>, i: int)
    requires
        0 <= i <= all.len(),
    ensures
        match profiles::profile_for(all, name, i) {
            Some(k) => i <= k < all.len() && profiles::same_name(all[k].process_name, name)
                && forall|j: int|
                i <= j < k ==> !profiles::same_name((#[trigger] all[j]).process_name, name),
            None => forall|j: int|
                i <= j < all.len() ==> !profiles::same_name(
                    (#[trigger] all[j]).process_name,
                    name,
                ),
        },
    decreases all.len() - i,
{
    if i < all.len() && !profiles::same_name(all[i].process_name, name) {
        lemma_profile_for(all, name, i + 1);
    }
}

/// The case of an executable's name does not matter.
pub proof fn executables_ignore_case(
    p: Preferences,
    all: Seq<ProfileView>,
    a: Seq<char>,
    b: Seq<char>,
)
    requires
        profiles::same_name(a, b),
    ensures
        profiles::context_for(p, all, a) == profiles::context_for(p, all, b),
{
    lemma_profile_for(all, a, 0);
    lemma_profile_for(all, b, 0);
    assert forall|j: int| 0 <= j < all.len() implies profiles::same_name(
        (#[trigger] all[j]).process_name,
        a,
    ) == profiles::same_name(all[j].process_name, b) by {
        lemma_same_name(all[j].process_name, a, b);
        lemma_same_name(all[j].process_name, b, a);
        lemma_same_name(a, b, a);
    }
    if let Some(k) = profiles::profile_for(all, a, 0) {
        assert(profiles::same_name(all[k].process_name, b));
    }
    if let Some(k) = profiles::profile_for(all, b, 0) {
        assert(profiles::same_name(all[k].process_name, a));
    }
}

/// An application without a profile gets what the preferences say.
pub proof fn without_a_profile_preferences_hold(
    p: Preferences,
    all: Seq<ProfileView>,
    name: Seq<char>,
)
    requires
        forall|i: int|
            0 <= i < all.len() ==> !profiles::same_name((#[trigger] all[i]).process_name, name),
    ensures
        ({
            let context = profiles::context_for(p, all, name);
            &&& context.default_mode == p.default_mode
            &&& context.normalizer == p.normalizer
            &&& context.prediction_enabled == p.prediction_enabled
            &&& context.suggest_accept == p.suggest_accept
        }),
{
    lemma_profile_for(all, name, 0);
}

/// Whether profiles are such as a document can give: those shipped come first, each
/// is for an executable that can be named, and no two are for the same.
pub open spec fn complete(all: Seq<ProfileView>) -> bool {
    &&& all.len() >= 3
    &&& profiles::same_name("WindowsTerminal.exe"@, all[0].process_name)
    &&& profiles::same_name("Code.exe"@, all[1].process_name)
    &&& profiles::same_name("devenv.exe"@, all[2].process_name)
    &&& forall|i: int|
        0 <= i < all.len() ==> profiles::valid_process_name((#[trigger] all[i]).process_name)
    &&& forall|i: int, j: int|
        0 <= i < j < all.len() ==> !profiles::same_name(
            (#[trigger] all[i]).process_name,
            (#[trigger] all[j]).process_name,
        )
}

/// The shipped profiles are complete.
pub proof fn shipped_profiles_are_complete(p: Preferences)
    ensures
        complete(profiles::shipped(p)),
{
    reveal_strlit("WindowsTerminal.exe");
    reveal_strlit("Code.exe");
    reveal_strlit("devenv.exe");
    assert("WindowsTerminal.exe"@.len() == 19);
    assert("Code.exe"@.len() == 8);
    assert("devenv.exe"@.len() == 10);
    assert(profiles::valid_process_name("WindowsTerminal.exe"@));
    assert(profiles::valid_process_name("Code.exe"@));
    assert(profiles::valid_process_name("devenv.exe"@));
}

proof fn lemma_section_keeps_complete(
    before: Seq<ProfileView>,
    document: Seq<SectionView>,
    section: Seq<char>,
    p: Preferences,
)
    requires
        complete(before),
    ensures
        complete(parse::with_section(before, document, section, p)),
{
    if let Some(name) = parse::profiled(section) {
        let after = parse::with_section(before, document, section, p);
        lemma_profile_for(before, name, 0);
        match profiles::profile_for(before, name, 0) {
            Some(k) => {
                let old_name = before[k].process_name;
                assert(after[k].process_name == name);
                assert forall|i: int, j: int| 0 <= i < j < after.len() implies !profiles::same_name(
                    (#[trigger] after[i]).process_name,
                    (#[trigger] after[j]).process_name,
                ) by {
                    assert(!profiles::same_name(before[i].process_name, before[j].process_name));
                    if i == k {
                        let other = before[j].process_name;
                        lemma_same_name(old_name, name, other);
                    }
                    if j == k {
                        let other = before[i].process_name;
                        lemma_same_name(other, name, old_name);
                        lemma_same_name(name, old_name, other);
                    }
                }
                lemma_same_name("WindowsTerminal.exe"@, old_name, name);
                lemma_same_name("Code.exe"@, old_name, name);
                lemma_same_name("devenv.exe"@, old_name, name);
            },
            None => {
                assert forall|i: int, j: int| 0 <= i < j < after.len() implies !profiles::same_name(
                    (#[trigger] after[i]).process_name,
                    (#[trigger] after[j]).process_name,
                ) by {
                    assert(after[i] == before[i]);
                    if j < before.len() {
                        assert(after[j] == before[j]);
                    }
                }
            },
        }
    }
}

pub proof fn lemma_profiles_complete(document: Seq<SectionView>, p: Preferences, n: int)
    ensures
        complete(parse::profiles_from(document, p, n)),
    decreases n,
{
    if n <= 0 {
        shipped_profiles_are_complete(p);
    } else {
        lemma_profiles_complete(document, p, n - 1);
        lemma_section_keeps_complete(
            parse::profiles_from(document, p, n - 1),
            document,
            document[n - 1].name,
            p,
        );
    }
}

/// The profiles of every document are complete.
pub proof fn parsed_profiles_are_complete(document: Seq<SectionView>)
    ensures
        complete(parse::profiles_of(document)),
{
    lemma_profiles_complete(document, parse::preferences_of(document), document.len() as int);
}

// ---------------------------------------------------------------------------
// What is written reads back.

proof fn lemma_distinct_by(entries: Seq<EntryView>, place: spec_fn(int) -> int)
    requires
        forall|k: int|
            0 <= k < entries.len() ==> place(strings::signature((#[trigger] entries[k]).key)) == k,
    ensures
        config::distinct_keys(entries),
{
    assert forall|i: int, j: int| 0 <= i < j < entries.len() implies (#[trigger] entries[i]).key != (
    #[trigger] entries[j]).key by {
        assert(place(strings::signature(entries[i].key)) == i);
        assert(place(strings::signature(entries[j].key)) == j);
    }
}

/// The key at a place is found there.
proof fn lemma_entry_at(entries: Seq<EntryView>, k: int)
    requires
        config::distinct_keys(entries),
        0 <= k < entries.len(),
    ensures
        config::find_entry(entries, entries[k].key, 0) == Some(k),
{
    config::lemma_find_entry(entries, entries[k].key, 0);
}

/// The text at a place is found by its section and its key.
proof fn lemma_text_at(document: Seq<SectionView>, i: int, k: int, value: Seq<char>)
    requires
        0 <= i < document.len(),
        config::find_section(document, document[i].name, 0) == Some(i),
        config::distinct_keys(document[i].entries),
        0 <= k < document[i].entries.len(),
        document[i].entries[k].value == config::ValueView::Text(value),
    ensures
        config::text_at(document, document[i].name, document[i].entries[k].key) == Some(value),
        config::value_at(document, document[i].name, document[i].entries[k].key) == Some(
            config::ValueView::Text(value),
        ),
{
    lemma_entry_at(document[i].entries, k);
}

proof fn lemma_bool_plain(value: bool)
    ensures
        config_text::plain(serialize::bool_name_of(value)),
{
    reveal(serialize::bool_name_of);
    reveal_strlit("true");
    reveal_strlit("false");
}

proof fn lemma_bool_names(value: bool)
    ensures
        parse::bool_named(serialize::bool_name_of(value)) == Some(value),
{
    reveal(serialize::bool_name_of);
    reveal_strlit("true");
    reveal_strlit("false");
    reveal_strlit("on");
    reveal_strlit("yes");
    reveal_strlit("off");
    reveal_strlit("no");
    assert("true"@.len() == 4 && "false"@.len() == 5);
    assert("on"@.len() == 2 && "yes"@.len() == 3);
}

/// The keys of the section are bare, and no two are the same.
proof fn lemma_input_keys(p: Preferences)
    ensures
        config::distinct_keys(serialize::input_section_of(p).entries),
        forall|k: int|
            0 <= k < 12 ==> config_text::bare_key(
                (#[trigger] serialize::input_section_of(p).entries[k]).key,
            ),
{
    let entries = serialize::input_section_of(p).entries;
    let place = |n: int|
        if n == 15690767053 {
            0int
        } else if n == 13538540108 {
            1int
        } else if n == 13469898961 {
            2int
        } else if n == 13661739276 {
            3int
        } else if n == 13469776914 {
            4int
        } else if n == 15674014926 {
            5int
        } else if n == 13537982547 {
            6int
        } else if n == 13658594197 {
            7int
        } else if n == 13671201038 {
            8int
        } else if n == 14068071627 {
            9int
        } else if n == 13662272715 {
            10int
        } else if n == 15692798988 {
            11int
        } else {
            -1
        };
    reveal_strlit("keymap-preset");
    reveal_strlit("input-method");
    reveal_strlit("conversion-method");
    reveal_strlit("default-mode");
    reveal_strlit("prediction-enabled");
    reveal_strlit("suggest-accept");
    reveal_strlit("association-enabled");
    reveal_strlit("neural-reranker-scope");
    reveal_strlit("developer-mode");
    reveal_strlit("space-width");
    reveal_strlit("shift-space");
    reveal_strlit("pad-shortcut");
    assert(entries[0].key == "keymap-preset"@ && strings::signature("keymap-preset"@) == 15690767053);
    assert(entries[1].key == "input-method"@ && strings::signature("input-method"@) == 13538540108);
    assert(entries[2].key == "conversion-method"@ && strings::signature("conversion-method"@) == 13469898961);
    assert(entries[3].key == "default-mode"@ && strings::signature("default-mode"@) == 13661739276);
    assert(entries[4].key == "prediction-enabled"@ && strings::signature("prediction-enabled"@) == 13469776914);
    assert(entries[5].key == "suggest-accept"@ && strings::signature("suggest-accept"@) == 15674014926);
    assert(entries[6].key == "association-enabled"@ && strings::signature("association-enabled"@) == 13537982547);
    assert(entries[7].key == "neural-reranker-scope"@ && strings::signature("neural-reranker-scope"@) == 13658594197);
    assert(entries[8].key == "developer-mode"@ && strings::signature("developer-mode"@) == 13671201038);
    assert(entries[9].key == "space-width"@ && strings::signature("space-width"@) == 14068071627);
    assert(entries[10].key == "shift-space"@ && strings::signature("shift-space"@) == 13662272715);
    assert(entries[11].key == "pad-shortcut"@ && strings::signature("pad-shortcut"@) == 15692798988);
    assert(config_text::bare_key("keymap-preset"@));
    assert(config_text::bare_key("input-method"@));
    assert(config_text::bare_key("conversion-method"@));
    assert(config_text::bare_key("default-mode"@));
    assert(config_text::bare_key("prediction-enabled"@));
    assert(config_text::bare_key("suggest-accept"@));
    assert(config_text::bare_key("association-enabled"@));
    assert(config_text::bare_key("neural-reranker-scope"@));
    assert(config_text::bare_key("developer-mode"@));
    assert(config_text::bare_key("space-width"@));
    assert(config_text::bare_key("shift-space"@));
    assert(config_text::bare_key("pad-shortcut"@));
    assert forall|k: int| 0 <= k < entries.len() implies place(
        strings::signature((#[trigger] entries[k]).key),
    ) == k by {
    }
    lemma_distinct_by(entries, place);
}

/// The keys of the section are bare, and no two are the same.
proof fn lemma_support_keys(p: Preferences)
    ensures
        config::distinct_keys(serialize::support_section_of(p).entries),
        forall|k: int|
            0 <= k < 16 ==> config_text::bare_key(
                (#[trigger] serialize::support_section_of(p).entries[k]).key,
            ),
{
    let entries = serialize::support_section_of(p).entries;
    let place = |n: int|
        if n == 13422606663 {
            0int
        } else if n == 13528635596 {
            1int
        } else if n == 13422590024 {
            2int
        } else if n == 15691267467 {
            3int
        } else if n == 13125933263 {
            4int
        } else if n == 15570164615 {
            5int
        } else if n == 15134931212 {
            6int
        } else if n == 14764866826 {
            7int
        } else if n == 14898175429 {
            8int
        } else if n == 15703850183 {
            9int
        } else if n == 15541320082 {
            10int
        } else if n == 13067254099 {
            11int
        } else if n == 15675989010 {
            12int
        } else if n == 15689169105 {
            13int
        } else if n == 15617276758 {
            14int
        } else if n == 14677891862 {
            15int
        } else {
            -1
        };
    reveal_strlit("enabled");
    reveal_strlit("commit-based");
    reveal_strlit("advanced");
    reveal_strlit("vowel-count");
    reveal_strlit("consonant-extra");
    reveal_strlit("n-count");
    reveal_strlit("dakuten-swap");
    reveal_strlit("tsu-sokuon");
    reveal_strlit("wa-wo");
    reveal_strlit("small-u");
    reveal_strlit("fuzzy-proper-nouns");
    reveal_strlit("english-to-katakana");
    reveal_strlit("period-after-digit");
    reveal_strlit("comma-after-digit");
    reveal_strlit("middle-dot-after-digit");
    reveal_strlit("long-vowel-after-alnum");
    assert(entries[0].key == "enabled"@ && strings::signature("enabled"@) == 13422606663);
    assert(entries[1].key == "commit-based"@ && strings::signature("commit-based"@) == 13528635596);
    assert(entries[2].key == "advanced"@ && strings::signature("advanced"@) == 13422590024);
    assert(entries[3].key == "vowel-count"@ && strings::signature("vowel-count"@) == 15691267467);
    assert(entries[4].key == "consonant-extra"@ && strings::signature("consonant-extra"@) == 13125933263);
    assert(entries[5].key == "n-count"@ && strings::signature("n-count"@) == 15570164615);
    assert(entries[6].key == "dakuten-swap"@ && strings::signature("dakuten-swap"@) == 15134931212);
    assert(entries[7].key == "tsu-sokuon"@ && strings::signature("tsu-sokuon"@) == 14764866826);
    assert(entries[8].key == "wa-wo"@ && strings::signature("wa-wo"@) == 14898175429);
    assert(entries[9].key == "small-u"@ && strings::signature("small-u"@) == 15703850183);
    assert(entries[10].key == "fuzzy-proper-nouns"@ && strings::signature("fuzzy-proper-nouns"@) == 15541320082);
    assert(entries[11].key == "english-to-katakana"@ && strings::signature("english-to-katakana"@) == 13067254099);
    assert(entries[12].key == "period-after-digit"@ && strings::signature("period-after-digit"@) == 15675989010);
    assert(entries[13].key == "comma-after-digit"@ && strings::signature("comma-after-digit"@) == 15689169105);
    assert(entries[14].key == "middle-dot-after-digit"@ && strings::signature("middle-dot-after-digit"@) == 15617276758);
    assert(entries[15].key == "long-vowel-after-alnum"@ && strings::signature("long-vowel-after-alnum"@) == 14677891862);
    assert(config_text::bare_key("enabled"@));
    assert(config_text::bare_key("commit-based"@));
    assert(config_text::bare_key("advanced"@));
    assert(config_text::bare_key("vowel-count"@));
    assert(config_text::bare_key("consonant-extra"@));
    assert(config_text::bare_key("n-count"@));
    assert(config_text::bare_key("dakuten-swap"@));
    assert(config_text::bare_key("tsu-sokuon"@));
    assert(config_text::bare_key("wa-wo"@));
    assert(config_text::bare_key("small-u"@));
    assert(config_text::bare_key("fuzzy-proper-nouns"@));
    assert(config_text::bare_key("english-to-katakana"@));
    assert(config_text::bare_key("period-after-digit"@));
    assert(config_text::bare_key("comma-after-digit"@));
    assert(config_text::bare_key("middle-dot-after-digit"@));
    assert(config_text::bare_key("long-vowel-after-alnum"@));
    assert forall|k: int| 0 <= k < entries.len() implies place(
        strings::signature((#[trigger] entries[k]).key),
    ) == k by {
    }
    lemma_distinct_by(entries, place);
}

/// The keys of the section are bare, and no two are the same.
proof fn lemma_appearance_keys(p: Preferences)
    ensures
        config::distinct_keys(serialize::appearance_section_of(p).entries),
        forall|k: int|
            0 <= k < 1 ==> config_text::bare_key(
                (#[trigger] serialize::appearance_section_of(p).entries[k]).key,
            ),
{
    let entries = serialize::appearance_section_of(p).entries;
    let place = |n: int|
        if n == 13555997957 {
            0int
        } else {
            -1
        };
    reveal_strlit("theme");
    assert(entries[0].key == "theme"@ && strings::signature("theme"@) == 13555997957);
    assert(config_text::bare_key("theme"@));
    assert forall|k: int| 0 <= k < entries.len() implies place(
        strings::signature((#[trigger] entries[k]).key),
    ) == k by {
    }
    lemma_distinct_by(entries, place);
}

/// The keys of the section are bare, and no two are the same.
proof fn lemma_width_keys(p: Preferences)
    ensures
        config::distinct_keys(serialize::width_section_of(p).entries),
        forall|k: int|
            0 <= k < 5 ==> config_text::bare_key(
                (#[trigger] serialize::width_section_of(p).entries[k]).key,
            ),
{
    let entries = serialize::width_section_of(p).entries;
    let place = |n: int|
        if n == 14629738565 {
            0int
        } else if n == 15301761926 {
            1int
        } else if n == 14496406726 {
            2int
        } else if n == 14880259083 {
            3int
        } else if n == 15435872392 {
            4int
        } else {
            -1
        };
    reveal_strlit("alnum");
    reveal_strlit("number");
    reveal_strlit("symbol");
    reveal_strlit("punctuation");
    reveal_strlit("brackets");
    assert(entries[0].key == "alnum"@ && strings::signature("alnum"@) == 14629738565);
    assert(entries[1].key == "number"@ && strings::signature("number"@) == 15301761926);
    assert(entries[2].key == "symbol"@ && strings::signature("symbol"@) == 14496406726);
    assert(entries[3].key == "punctuation"@ && strings::signature("punctuation"@) == 14880259083);
    assert(entries[4].key == "brackets"@ && strings::signature("brackets"@) == 15435872392);
    assert(config_text::bare_key("alnum"@));
    assert(config_text::bare_key("number"@));
    assert(config_text::bare_key("symbol"@));
    assert(config_text::bare_key("punctuation"@));
    assert(config_text::bare_key("brackets"@));
    assert forall|k: int| 0 <= k < entries.len() implies place(
        strings::signature((#[trigger] entries[k]).key),
    ) == k by {
    }
    lemma_distinct_by(entries, place);
}

/// The keys of the section are bare, and no two are the same.
proof fn lemma_profile_keys(p: ProfileView)
    ensures
        config::distinct_keys(serialize::profile_section_of(p).entries),
        forall|k: int|
            0 <= k < 8 ==> config_text::bare_key(
                (#[trigger] serialize::profile_section_of(p).entries[k]).key,
            ),
{
    let entries = serialize::profile_section_of(p).entries;
    let place = |n: int|
        if n == 13661739276 {
            0int
        } else if n == 13469776914 {
            1int
        } else if n == 15674014926 {
            2int
        } else if n == 14629738565 {
            3int
        } else if n == 15301761926 {
            4int
        } else if n == 14496406726 {
            5int
        } else if n == 14880259083 {
            6int
        } else if n == 15435872392 {
            7int
        } else {
            -1
        };
    reveal_strlit("default-mode");
    reveal_strlit("prediction-enabled");
    reveal_strlit("suggest-accept");
    reveal_strlit("alnum");
    reveal_strlit("number");
    reveal_strlit("symbol");
    reveal_strlit("punctuation");
    reveal_strlit("brackets");
    assert(entries[0].key == "default-mode"@ && strings::signature("default-mode"@) == 13661739276);
    assert(entries[1].key == "prediction-enabled"@ && strings::signature("prediction-enabled"@) == 13469776914);
    assert(entries[2].key == "suggest-accept"@ && strings::signature("suggest-accept"@) == 15674014926);
    assert(entries[3].key == "alnum"@ && strings::signature("alnum"@) == 14629738565);
    assert(entries[4].key == "number"@ && strings::signature("number"@) == 15301761926);
    assert(entries[5].key == "symbol"@ && strings::signature("symbol"@) == 14496406726);
    assert(entries[6].key == "punctuation"@ && strings::signature("punctuation"@) == 14880259083);
    assert(entries[7].key == "brackets"@ && strings::signature("brackets"@) == 15435872392);
    assert(config_text::bare_key("default-mode"@));
    assert(config_text::bare_key("prediction-enabled"@));
    assert(config_text::bare_key("suggest-accept"@));
    assert(config_text::bare_key("alnum"@));
    assert(config_text::bare_key("number"@));
    assert(config_text::bare_key("symbol"@));
    assert(config_text::bare_key("punctuation"@));
    assert(config_text::bare_key("brackets"@));
    assert forall|k: int| 0 <= k < entries.len() implies place(
        strings::signature((#[trigger] entries[k]).key),
    ) == k by {
    }
    lemma_distinct_by(entries, place);
}

/// The section is written so that it reads back.
proof fn lemma_input_writable(p: Preferences)
    ensures
        config_text::writable_entries(serialize::input_section_of(p).entries),
        config::distinct_keys(serialize::input_section_of(p).entries),
{
    lemma_input_keys(p);
    keymap::laws::preset_names_round_trip(p.keymap_preset);
    p.input_method.name_round_trips();
    p.conversion_method.name_round_trips();
    p.default_mode.name_round_trips();
    lemma_bool_plain(p.prediction_enabled);
    p.suggest_accept.name_round_trips();
    lemma_bool_plain(p.association_enabled);
    p.neural_reranker_scope.name_round_trips();
    lemma_bool_plain(p.developer_mode);
    p.space_width.name_round_trips();
    p.shift_space_behavior.name_round_trips();
    p.pad_shortcut.name_round_trips();
    reveal_strlit("ms-ime");
    reveal_strlit("atok");
    assert(config_text::plain(p.keymap_preset.name_of()));
}

/// The section is written so that it reads back.
proof fn lemma_support_writable(p: Preferences)
    ensures
        config_text::writable_entries(serialize::support_section_of(p).entries),
        config::distinct_keys(serialize::support_section_of(p).entries),
{
    lemma_support_keys(p);
    lemma_bool_plain(p.input_support.enabled);
    lemma_bool_plain(p.input_support.commit_based);
    lemma_bool_plain(p.input_support.advanced);
    lemma_bool_plain(p.input_support.vowel_count);
    lemma_bool_plain(p.input_support.consonant_extra);
    lemma_bool_plain(p.input_support.n_count);
    lemma_bool_plain(p.input_support.dakuten_swap);
    lemma_bool_plain(p.input_support.tsu_sokuon);
    lemma_bool_plain(p.input_support.wa_wo);
    lemma_bool_plain(p.input_support.small_u);
    lemma_bool_plain(p.input_support.fuzzy_proper_nouns);
    lemma_bool_plain(p.input_support.english_to_katakana);
    lemma_bool_plain(p.input_support.period_after_digit);
    lemma_bool_plain(p.input_support.comma_after_digit);
    lemma_bool_plain(p.input_support.middle_dot_after_digit);
    lemma_bool_plain(p.input_support.long_vowel_after_alnum);
}

/// The section is written so that it reads back.
proof fn lemma_appearance_writable(p: Preferences)
    ensures
        config_text::writable_entries(serialize::appearance_section_of(p).entries),
        config::distinct_keys(serialize::appearance_section_of(p).entries),
{
    lemma_appearance_keys(p);
    p.appearance_theme.name_round_trips();
}

/// The section is written so that it reads back.
proof fn lemma_width_writable(p: Preferences)
    ensures
        config_text::writable_entries(serialize::width_section_of(p).entries),
        config::distinct_keys(serialize::width_section_of(p).entries),
{
    lemma_width_keys(p);
    p.normalizer.width.alnum.name_round_trips();
    p.normalizer.width.number.name_round_trips();
    p.normalizer.width.symbol.name_round_trips();
    p.normalizer.punctuation.name_round_trips();
    p.normalizer.brackets.name_round_trips();
}

/// The section is written so that it reads back.
proof fn lemma_profile_writable(p: ProfileView)
    ensures
        config_text::writable_entries(serialize::profile_section_of(p).entries),
        config::distinct_keys(serialize::profile_section_of(p).entries),
{
    lemma_profile_keys(p);
    p.default_mode.name_round_trips();
    lemma_bool_plain(p.prediction_enabled);
    p.suggest_accept.name_round_trips();
    p.normalizer.width.alnum.name_round_trips();
    p.normalizer.width.number.name_round_trips();
    p.normalizer.width.symbol.name_round_trips();
    p.normalizer.punctuation.name_round_trips();
    p.normalizer.brackets.name_round_trips();
}

/// Whether a section stands at a place of a document and is found there.
pub open spec fn stands(document: Seq<SectionView>, i: int, section: SectionView) -> bool {
    &&& 0 <= i < document.len()
    &&& document[i] == section
    &&& config::find_section(document, section.name, 0) == Some(i)
}

/// Every text of the section is found by its key.
proof fn lemma_input_texts(document: Seq<SectionView>, i: int, p: Preferences)
    requires
        stands(document, i, serialize::input_section_of(p)),
    ensures
        ({
            let name = serialize::input_section_of(p).name;
            &&& config::text_at(document, name, "keymap-preset"@) == Some(p.keymap_preset.name_of())
            &&& config::text_at(document, name, "input-method"@) == Some(p.input_method.name_of())
            &&& config::text_at(document, name, "conversion-method"@) == Some(p.conversion_method.name_of())
            &&& config::text_at(document, name, "default-mode"@) == Some(p.default_mode.name_of())
            &&& config::text_at(document, name, "prediction-enabled"@) == Some(serialize::bool_name_of(p.prediction_enabled))
            &&& config::text_at(document, name, "suggest-accept"@) == Some(p.suggest_accept.name_of())
            &&& config::text_at(document, name, "association-enabled"@) == Some(serialize::bool_name_of(p.association_enabled))
            &&& config::text_at(document, name, "neural-reranker-scope"@) == Some(p.neural_reranker_scope.name_of())
            &&& config::text_at(document, name, "developer-mode"@) == Some(serialize::bool_name_of(p.developer_mode))
            &&& config::text_at(document, name, "space-width"@) == Some(p.space_width.name_of())
            &&& config::text_at(document, name, "shift-space"@) == Some(p.shift_space_behavior.name_of())
            &&& config::text_at(document, name, "pad-shortcut"@) == Some(p.pad_shortcut.name_of())
            &&& config::value_at(document, name, "neural-reranker-scope"@) == Some(
                config::ValueView::Text(p.neural_reranker_scope.name_of()),
            )
        }),
{
    let entries = serialize::input_section_of(p).entries;
    lemma_input_keys(p);
    assert(entries[0] == config_text::text_entry("keymap-preset"@, p.keymap_preset.name_of()));
    lemma_text_at(document, i, 0, p.keymap_preset.name_of());
    assert(entries[1] == config_text::text_entry("input-method"@, p.input_method.name_of()));
    lemma_text_at(document, i, 1, p.input_method.name_of());
    assert(entries[2] == config_text::text_entry("conversion-method"@, p.conversion_method.name_of()));
    lemma_text_at(document, i, 2, p.conversion_method.name_of());
    assert(entries[3] == config_text::text_entry("default-mode"@, p.default_mode.name_of()));
    lemma_text_at(document, i, 3, p.default_mode.name_of());
    assert(entries[4] == config_text::text_entry("prediction-enabled"@, serialize::bool_name_of(p.prediction_enabled)));
    lemma_text_at(document, i, 4, serialize::bool_name_of(p.prediction_enabled));
    assert(entries[5] == config_text::text_entry("suggest-accept"@, p.suggest_accept.name_of()));
    lemma_text_at(document, i, 5, p.suggest_accept.name_of());
    assert(entries[6] == config_text::text_entry("association-enabled"@, serialize::bool_name_of(p.association_enabled)));
    lemma_text_at(document, i, 6, serialize::bool_name_of(p.association_enabled));
    assert(entries[7] == config_text::text_entry("neural-reranker-scope"@, p.neural_reranker_scope.name_of()));
    lemma_text_at(document, i, 7, p.neural_reranker_scope.name_of());
    assert(entries[8] == config_text::text_entry("developer-mode"@, serialize::bool_name_of(p.developer_mode)));
    lemma_text_at(document, i, 8, serialize::bool_name_of(p.developer_mode));
    assert(entries[9] == config_text::text_entry("space-width"@, p.space_width.name_of()));
    lemma_text_at(document, i, 9, p.space_width.name_of());
    assert(entries[10] == config_text::text_entry("shift-space"@, p.shift_space_behavior.name_of()));
    lemma_text_at(document, i, 10, p.shift_space_behavior.name_of());
    assert(entries[11] == config_text::text_entry("pad-shortcut"@, p.pad_shortcut.name_of()));
    lemma_text_at(document, i, 11, p.pad_shortcut.name_of());
}

/// Every text of the section is found by its key.
proof fn lemma_appearance_texts(document: Seq<SectionView>, i: int, p: Preferences)
    requires
        stands(document, i, serialize::appearance_section_of(p)),
    ensures
        ({
            let name = serialize::appearance_section_of(p).name;
            &&& config::text_at(document, name, "theme"@) == Some(p.appearance_theme.name_of())
        }),
{
    let entries = serialize::appearance_section_of(p).entries;
    lemma_appearance_keys(p);
    assert(entries[0] == config_text::text_entry("theme"@, p.appearance_theme.name_of()));
    lemma_text_at(document, i, 0, p.appearance_theme.name_of());
}

/// Every text of the section is found by its key.
proof fn lemma_width_texts(document: Seq<SectionView>, i: int, p: Preferences)
    requires
        stands(document, i, serialize::width_section_of(p)),
    ensures
        ({
            let name = serialize::width_section_of(p).name;
            &&& config::text_at(document, name, "alnum"@) == Some(p.normalizer.width.alnum.name_of())
            &&& config::text_at(document, name, "number"@) == Some(p.normalizer.width.number.name_of())
            &&& config::text_at(document, name, "symbol"@) == Some(p.normalizer.width.symbol.name_of())
            &&& config::text_at(document, name, "punctuation"@) == Some(p.normalizer.punctuation.name_of())
            &&& config::text_at(document, name, "brackets"@) == Some(p.normalizer.brackets.name_of())
        }),
{
    let entries = serialize::width_section_of(p).entries;
    lemma_width_keys(p);
    assert(entries[0] == config_text::text_entry("alnum"@, p.normalizer.width.alnum.name_of()));
    lemma_text_at(document, i, 0, p.normalizer.width.alnum.name_of());
    assert(entries[1] == config_text::text_entry("number"@, p.normalizer.width.number.name_of()));
    lemma_text_at(document, i, 1, p.normalizer.width.number.name_of());
    assert(entries[2] == config_text::text_entry("symbol"@, p.normalizer.width.symbol.name_of()));
    lemma_text_at(document, i, 2, p.normalizer.width.symbol.name_of());
    assert(entries[3] == config_text::text_entry("punctuation"@, p.normalizer.punctuation.name_of()));
    lemma_text_at(document, i, 3, p.normalizer.punctuation.name_of());
    assert(entries[4] == config_text::text_entry("brackets"@, p.normalizer.brackets.name_of()));
    lemma_text_at(document, i, 4, p.normalizer.brackets.name_of());
}

/// Every text of the section is found by its key.
proof fn lemma_profile_texts(document: Seq<SectionView>, i: int, p: ProfileView)
    requires
        stands(document, i, serialize::profile_section_of(p)),
    ensures
        ({
            let name = serialize::profile_section_of(p).name;
            &&& config::text_at(document, name, "default-mode"@) == Some(p.default_mode.name_of())
            &&& config::text_at(document, name, "prediction-enabled"@) == Some(serialize::bool_name_of(p.prediction_enabled))
            &&& config::text_at(document, name, "suggest-accept"@) == Some(p.suggest_accept.name_of())
            &&& config::text_at(document, name, "alnum"@) == Some(p.normalizer.width.alnum.name_of())
            &&& config::text_at(document, name, "number"@) == Some(p.normalizer.width.number.name_of())
            &&& config::text_at(document, name, "symbol"@) == Some(p.normalizer.width.symbol.name_of())
            &&& config::text_at(document, name, "punctuation"@) == Some(p.normalizer.punctuation.name_of())
            &&& config::text_at(document, name, "brackets"@) == Some(p.normalizer.brackets.name_of())
        }),
{
    let entries = serialize::profile_section_of(p).entries;
    lemma_profile_keys(p);
    assert(entries[0] == config_text::text_entry("default-mode"@, p.default_mode.name_of()));
    lemma_text_at(document, i, 0, p.default_mode.name_of());
    assert(entries[1] == config_text::text_entry("prediction-enabled"@, serialize::bool_name_of(p.prediction_enabled)));
    lemma_text_at(document, i, 1, serialize::bool_name_of(p.prediction_enabled));
    assert(entries[2] == config_text::text_entry("suggest-accept"@, p.suggest_accept.name_of()));
    lemma_text_at(document, i, 2, p.suggest_accept.name_of());
    assert(entries[3] == config_text::text_entry("alnum"@, p.normalizer.width.alnum.name_of()));
    lemma_text_at(document, i, 3, p.normalizer.width.alnum.name_of());
    assert(entries[4] == config_text::text_entry("number"@, p.normalizer.width.number.name_of()));
    lemma_text_at(document, i, 4, p.normalizer.width.number.name_of());
    assert(entries[5] == config_text::text_entry("symbol"@, p.normalizer.width.symbol.name_of()));
    lemma_text_at(document, i, 5, p.normalizer.width.symbol.name_of());
    assert(entries[6] == config_text::text_entry("punctuation"@, p.normalizer.punctuation.name_of()));
    lemma_text_at(document, i, 6, p.normalizer.punctuation.name_of());
    assert(entries[7] == config_text::text_entry("brackets"@, p.normalizer.brackets.name_of()));
    lemma_text_at(document, i, 7, p.normalizer.brackets.name_of());
}

proof fn lemma_four()
    ensures
        parse::number_named("4"@) == Some(CONFIG_FORMAT_VERSION),
{
    reveal_strlit("4");
    let s = "4"@;
    assert(s.len() == 1 && s[0] == '4');
    assert(s.drop_last() =~= Seq::<char>::empty());
    reveal_with_fuel(parse::decimal_value, 2);
    assert(parse::all_digits(s));
}

/// The five sections of the preferences stand at the front of what is written.
proof fn lemma_sections_stand(p: Preferences, rest: Seq<SectionView>)
    ensures
        ({
            let document = serialize::preference_sections(p) + rest;
            &&& stands(document, 0, serialize::meta_section())
            &&& stands(document, 1, serialize::input_section_of(p))
            &&& stands(document, 2, serialize::support_section_of(p))
            &&& stands(document, 3, serialize::appearance_section_of(p))
            &&& stands(document, 4, serialize::width_section_of(p))
        }),
{
    let document = serialize::preference_sections(p) + rest;
    lemma_five_names();
    assert(document[0] == serialize::meta_section());
    assert(document[1] == serialize::input_section_of(p));
    assert(document[2] == serialize::support_section_of(p));
    assert(document[3] == serialize::appearance_section_of(p));
    assert(document[4] == serialize::width_section_of(p));
    reveal_with_fuel(config::find_section, 6);
}

/// The names of the five sections differ, and none starts as that of a profile.
proof fn lemma_five_names()
    ensures
        "meta"@.len() == 4 && "meta"@[0] == 'm',
        "input"@.len() == 5 && "input"@[0] == 'i',
        "input-support"@.len() == 13 && "input-support"@[0] == 'i',
        "appearance"@.len() == 10 && "appearance"@[0] == 'a',
        "width"@.len() == 5 && "width"@[0] == 'w',
        "profile."@.len() == 8 && "profile."@[0] == 'p',
        config_text::section_name("meta"@),
        config_text::section_name("input"@),
        config_text::section_name("input-support"@),
        config_text::section_name("appearance"@),
        config_text::section_name("width"@),
        config_text::section_name("profile."@),
{
    reveal_strlit("meta");
    reveal_strlit("input");
    reveal_strlit("input-support");
    reveal_strlit("appearance");
    reveal_strlit("width");
    reveal_strlit("profile.");
}

/// A truth value that is written is the one that is read.
proof fn lemma_flag_found(
    document: Seq<SectionView>,
    section: Seq<char>,
    key: Seq<char>,
    value: bool,
    default: bool,
)
    requires
        config::text_at(document, section, key) == Some(serialize::bool_name_of(value)),
    ensures
        parse::flag_at(document, section, key, default) == value,
{
    reveal(parse::flag_at);
    lemma_bool_names(value);
}

/// Whether no two entries of a section have the same key.
#[verifier::opaque]
spec fn keyed(section: SectionView) -> bool {
    config::distinct_keys(section.entries)
}

/// Whether a section has an entry for a rule at a place.
spec fn has_rule(section: SectionView, k: int, key: Seq<char>, value: bool) -> bool {
    0 <= k < section.entries.len() && section.entries[k] == config_text::text_entry(
        key,
        serialize::bool_name_of(value),
    )
}

/// A rule that is written is the one that is read.
proof fn lemma_rule_found(
    document: Seq<SectionView>,
    i: int,
    section: SectionView,
    k: int,
    key: Seq<char>,
    value: bool,
)
    requires
        stands(document, i, section),
        keyed(section),
        has_rule(section, k, key, value),
    ensures
        parse::flag_at(document, section.name, key, true) == value,
{
    reveal(keyed);
    lemma_text_at(document, i, k, serialize::bool_name_of(value));
    lemma_flag_found(document, section.name, key, value, true);
}

/// Whether a section has an entry for each of the first rules.
#[verifier::opaque]
spec fn has_first_rules(section: SectionView, support: InputSupport) -> bool {
    &&& has_rule(section, 0, "enabled"@, support.enabled)
    &&& has_rule(section, 1, "commit-based"@, support.commit_based)
    &&& has_rule(section, 2, "advanced"@, support.advanced)
    &&& has_rule(section, 3, "vowel-count"@, support.vowel_count)
    &&& has_rule(section, 4, "consonant-extra"@, support.consonant_extra)
    &&& has_rule(section, 5, "n-count"@, support.n_count)
    &&& has_rule(section, 6, "dakuten-swap"@, support.dakuten_swap)
    &&& has_rule(section, 7, "tsu-sokuon"@, support.tsu_sokuon)
}

/// Whether each of the first rules is read as it is.
#[verifier::opaque]
spec fn reads_first_rules(document: Seq<SectionView>, support: InputSupport) -> bool {
    &&& parse::flag_at(document, "input-support"@, "enabled"@, true) == support.enabled
    &&& parse::flag_at(document, "input-support"@, "commit-based"@, true) == support.commit_based
    &&& parse::flag_at(document, "input-support"@, "advanced"@, true) == support.advanced
    &&& parse::flag_at(document, "input-support"@, "vowel-count"@, true) == support.vowel_count
    &&& parse::flag_at(document, "input-support"@, "consonant-extra"@, true) == support.consonant_extra
    &&& parse::flag_at(document, "input-support"@, "n-count"@, true) == support.n_count
    &&& parse::flag_at(document, "input-support"@, "dakuten-swap"@, true) == support.dakuten_swap
    &&& parse::flag_at(document, "input-support"@, "tsu-sokuon"@, true) == support.tsu_sokuon
}

/// The section of the rules has an entry for each of the first rules.
proof fn lemma_has_first_rules(p: Preferences)
    ensures
        has_first_rules(serialize::support_section_of(p), p.input_support),
{
    reveal(has_first_rules);
}

/// The first rules of a section are those that are read.
proof fn lemma_first_rules_found(
    document: Seq<SectionView>,
    i: int,
    section: SectionView,
    support: InputSupport,
)
    requires
        stands(document, i, section),
        section.name == "input-support"@,
        keyed(section),
        has_first_rules(section, support),
    ensures
        reads_first_rules(document, support),
{
    reveal(has_first_rules);
    reveal(reads_first_rules);
    lemma_rule_found(document, i, section, 0, "enabled"@, support.enabled);
    lemma_rule_found(document, i, section, 1, "commit-based"@, support.commit_based);
    lemma_rule_found(document, i, section, 2, "advanced"@, support.advanced);
    lemma_rule_found(document, i, section, 3, "vowel-count"@, support.vowel_count);
    lemma_rule_found(document, i, section, 4, "consonant-extra"@, support.consonant_extra);
    lemma_rule_found(document, i, section, 5, "n-count"@, support.n_count);
    lemma_rule_found(document, i, section, 6, "dakuten-swap"@, support.dakuten_swap);
    lemma_rule_found(document, i, section, 7, "tsu-sokuon"@, support.tsu_sokuon);
}

/// Whether a section has an entry for each of the last rules.
#[verifier::opaque]
spec fn has_last_rules(section: SectionView, support: InputSupport) -> bool {
    &&& has_rule(section, 8, "wa-wo"@, support.wa_wo)
    &&& has_rule(section, 9, "small-u"@, support.small_u)
    &&& has_rule(section, 10, "fuzzy-proper-nouns"@, support.fuzzy_proper_nouns)
    &&& has_rule(section, 11, "english-to-katakana"@, support.english_to_katakana)
    &&& has_rule(section, 12, "period-after-digit"@, support.period_after_digit)
    &&& has_rule(section, 13, "comma-after-digit"@, support.comma_after_digit)
    &&& has_rule(section, 14, "middle-dot-after-digit"@, support.middle_dot_after_digit)
    &&& has_rule(section, 15, "long-vowel-after-alnum"@, support.long_vowel_after_alnum)
}

/// Whether each of the last rules is read as it is.
#[verifier::opaque]
spec fn reads_last_rules(document: Seq<SectionView>, support: InputSupport) -> bool {
    &&& parse::flag_at(document, "input-support"@, "wa-wo"@, true) == support.wa_wo
    &&& parse::flag_at(document, "input-support"@, "small-u"@, true) == support.small_u
    &&& parse::flag_at(document, "input-support"@, "fuzzy-proper-nouns"@, true) == support.fuzzy_proper_nouns
    &&& parse::flag_at(document, "input-support"@, "english-to-katakana"@, true) == support.english_to_katakana
    &&& parse::flag_at(document, "input-support"@, "period-after-digit"@, true) == support.period_after_digit
    &&& parse::flag_at(document, "input-support"@, "comma-after-digit"@, true) == support.comma_after_digit
    &&& parse::flag_at(document, "input-support"@, "middle-dot-after-digit"@, true) == support.middle_dot_after_digit
    &&& parse::flag_at(document, "input-support"@, "long-vowel-after-alnum"@, true) == support.long_vowel_after_alnum
}

/// The section of the rules has an entry for each of the last rules.
proof fn lemma_has_last_rules(p: Preferences)
    ensures
        has_last_rules(serialize::support_section_of(p), p.input_support),
{
    reveal(has_last_rules);
}

/// The last rules of a section are those that are read.
proof fn lemma_last_rules_found(
    document: Seq<SectionView>,
    i: int,
    section: SectionView,
    support: InputSupport,
)
    requires
        stands(document, i, section),
        section.name == "input-support"@,
        keyed(section),
        has_last_rules(section, support),
    ensures
        reads_last_rules(document, support),
{
    reveal(has_last_rules);
    reveal(reads_last_rules);
    lemma_rule_found(document, i, section, 8, "wa-wo"@, support.wa_wo);
    lemma_rule_found(document, i, section, 9, "small-u"@, support.small_u);
    lemma_rule_found(document, i, section, 10, "fuzzy-proper-nouns"@, support.fuzzy_proper_nouns);
    lemma_rule_found(document, i, section, 11, "english-to-katakana"@, support.english_to_katakana);
    lemma_rule_found(document, i, section, 12, "period-after-digit"@, support.period_after_digit);
    lemma_rule_found(document, i, section, 13, "comma-after-digit"@, support.comma_after_digit);
    lemma_rule_found(document, i, section, 14, "middle-dot-after-digit"@, support.middle_dot_after_digit);
    lemma_rule_found(document, i, section, 15, "long-vowel-after-alnum"@, support.long_vowel_after_alnum);
}

/// Rules that are all read as they are make up the same assistance.
proof fn lemma_same_rules(document: Seq<SectionView>, support: InputSupport)
    requires
        reads_first_rules(document, support),
        reads_last_rules(document, support),
    ensures
        parse::support_of(document) == support,
{
    reveal(reads_first_rules);
    reveal(reads_last_rules);
}

/// The rules that are written are those that are read.
proof fn lemma_support_found(document: Seq<SectionView>, i: int, p: Preferences)
    requires
        stands(document, i, serialize::support_section_of(p)),
    ensures
        parse::support_of(document) == p.input_support,
{
    let section = serialize::support_section_of(p);
    assert(keyed(section)) by {
        lemma_support_keys(p);
        reveal(keyed);
    }
    lemma_has_first_rules(p);
    lemma_has_last_rules(p);
    lemma_first_rules_found(document, i, section, p.input_support);
    lemma_last_rules_found(document, i, section, p.input_support);
    lemma_same_rules(document, p.input_support);
}

/// The settings of input that are written are those that are read.
proof fn lemma_input_found(document: Seq<SectionView>, i: int, p: Preferences)
    requires
        stands(document, i, serialize::input_section_of(p)),
    ensures
        ({
            let found = parse::preferences_in(document, "input"@);
            &&& found.keymap_preset == p.keymap_preset
            &&& found.input_method == p.input_method
            &&& found.conversion_method == p.conversion_method
            &&& found.default_mode == p.default_mode
            &&& found.prediction_enabled == p.prediction_enabled
            &&& found.suggest_accept == p.suggest_accept
            &&& found.association_enabled == p.association_enabled
            &&& found.neural_reranker_scope == p.neural_reranker_scope
            &&& found.developer_mode == p.developer_mode
            &&& found.space_width == p.space_width
            &&& found.shift_space_behavior == p.shift_space_behavior
            &&& found.pad_shortcut == p.pad_shortcut
        }),
{
    lemma_input_texts(document, i, p);
    keymap::laws::preset_names_round_trip(p.keymap_preset);
    p.input_method.name_round_trips();
    p.conversion_method.name_round_trips();
    p.default_mode.name_round_trips();
    lemma_bool_names(p.prediction_enabled);
    p.suggest_accept.name_round_trips();
    lemma_flag_found(document, "input"@, "association-enabled"@, p.association_enabled, true);
    p.neural_reranker_scope.name_round_trips();
    lemma_flag_found(document, "input"@, "developer-mode"@, p.developer_mode, false);
    p.space_width.name_round_trips();
    p.shift_space_behavior.name_round_trips();
    p.pad_shortcut.name_round_trips();
}

/// The preferences that are written are those that are read, whatever profiles are
/// written with them.
pub proof fn written_preferences_are_found(p: Preferences, rest: Seq<SectionView>)
    ensures
        parse::version_of(serialize::preference_sections(p) + rest) == CONFIG_FORMAT_VERSION,
        parse::preferences_of(serialize::preference_sections(p) + rest) == p,
{
    let document = serialize::preference_sections(p) + rest;
    lemma_sections_stand(p, rest);
    lemma_four();
    let meta = serialize::meta_section();
    assert(meta.entries[0] == config_text::text_entry("format-version"@, "4"@));
    assert(config::distinct_keys(meta.entries));
    lemma_text_at(document, 0, 0, "4"@);
    assert(parse::version_of(document) == CONFIG_FORMAT_VERSION);
    assert(parse::input_section(parse::declared_version(document)) == "input"@);
    lemma_input_texts(document, 1, p);
    lemma_appearance_texts(document, 3, p);
    lemma_width_texts(document, 4, p);
    lemma_support_found(document, 2, p);
    assert(parse::normalizer_of(document) == p.normalizer) by {
        p.normalizer.width.alnum.name_round_trips();
        p.normalizer.width.number.name_round_trips();
        p.normalizer.width.symbol.name_round_trips();
        p.normalizer.punctuation.name_round_trips();
        p.normalizer.brackets.name_round_trips();
    }
    lemma_input_found(document, 1, p);
    assert(parse::preferences_of(document).appearance_theme == p.appearance_theme) by {
        p.appearance_theme.name_round_trips();
    }
}

/// A profile that is written is the one that is read.
proof fn lemma_profile_found(document: Seq<SectionView>, i: int, p: ProfileView, before: ProfileView)
    requires
        stands(document, i, serialize::profile_section_of(p)),
    ensures
        parse::overridden(
            before,
            document,
            serialize::profile_section_of(p).name,
            p.process_name,
        ) == p,
{
    lemma_profile_texts(document, i, p);
    p.default_mode.name_round_trips();
    lemma_bool_names(p.prediction_enabled);
    p.suggest_accept.name_round_trips();
    p.normalizer.width.alnum.name_round_trips();
    p.normalizer.width.number.name_round_trips();
    p.normalizer.width.symbol.name_round_trips();
    p.normalizer.punctuation.name_round_trips();
    p.normalizer.brackets.name_round_trips();
}

/// Every profile of a complete list is written.
proof fn lemma_profile_sections(all: Seq<ProfileView>, n: int)
    requires
        complete(all),
        0 <= n <= all.len(),
    ensures
        serialize::profile_sections(all, n).len() == n,
        forall|k: int|
            0 <= k < n ==> (#[trigger] serialize::profile_sections(all, n)[k])
                == serialize::profile_section_of(all[k]),
    decreases n,
{
    if n > 0 {
        lemma_profile_sections(all, n - 1);
    }
}

/// What is written of a complete list of profiles is well formed, and reads back.
proof fn lemma_written_is_sound(p: Preferences, all: Seq<ProfileView>)
    requires
        complete(all),
    ensures
        config::well_formed(serialize::written(p, all)),
        config_text::writable(serialize::written(p, all)),
{
    let document = serialize::written(p, all);
    let tail = serialize::profile_sections(all, all.len() as int);
    lemma_profile_sections(all, all.len() as int);
    lemma_five_names();
    lemma_input_writable(p);
    lemma_support_writable(p);
    lemma_appearance_writable(p);
    lemma_width_writable(p);
    let meta = serialize::meta_section();
    assert(config_text::writable_entries(meta.entries)) by {
        reveal_strlit("format-version");
        reveal_strlit("4");
    }
    assert(config::distinct_keys(meta.entries));
    assert forall|i: int| 0 <= i < document.len() implies config_text::section_name(
        (#[trigger] document[i]).name,
    ) && config_text::writable_entries(document[i].entries) && config::distinct_keys(
        document[i].entries,
    ) by {
        if i >= 5 {
            let profile = all[i - 5];
            assert(document[i] == tail[i - 5]);
            lemma_profile_writable(profile);
            let name = document[i].name;
            assert(name == "profile."@ + profile.process_name);
            assert forall|k: int| 0 <= k < name.len() implies config::is_name(
                #[trigger] name[k],
            ) by {
                if k >= 8 {
                    assert(name[k] == profile.process_name[k - 8]);
                    assert(profiles::name_character(profile.process_name[k - 8]));
                } else {
                    assert(name[k] == "profile."@[k]);
                }
            }
        }
    }
    assert forall|i: int, j: int| 0 <= i < j < document.len() implies (#[trigger] document[i]).name
        != (#[trigger] document[j]).name by {
        if j >= 5 {
            assert(document[j] == tail[j - 5]);
            let b = all[j - 5].process_name;
            assert(document[j].name[0] == 'p');
            if i >= 5 {
                assert(document[i] == tail[i - 5]);
                let a = all[i - 5].process_name;
                if document[i].name == document[j].name {
                    assert(document[i].name.skip(8) =~= a);
                    assert(document[j].name.skip(8) =~= b);
                    lemma_same_name(a, a, a);
                }
            }
        }
    }
}

/// The profiles while a document is read: those that were read, and the shipped ones
/// that are still to come.
spec fn halfway(all: Seq<ProfileView>, shipped: Seq<ProfileView>, m: int) -> Seq<ProfileView> {
    Seq::new(
        if m < 3 {
            3
        } else {
            m as nat
        },
        |j: int|
            if j < m {
                all[j]
            } else {
                shipped[j]
            },
    )
}

proof fn lemma_profiles_found(p: Preferences, all: Seq<ProfileView>, m: int)
    requires
        complete(all),
        0 <= m <= all.len(),
    ensures
        parse::profiles_from(serialize::written(p, all), p, 5 + m) == halfway(
            all,
            profiles::shipped(p),
            m,
        ),
    decreases m,
{
    let document = serialize::written(p, all);
    let shipped = profiles::shipped(p);
    lemma_five_names();
    if m == 0 {
        reveal_with_fuel(parse::profiles_from, 6);
        assert(document[0].name == "meta"@);
        assert(document[1].name == "input"@);
        assert(document[2].name == "input-support"@);
        assert(document[3].name == "appearance"@);
        assert(document[4].name == "width"@);
        lemma_not_profiled("meta"@);
        lemma_not_profiled("input"@);
        lemma_not_profiled("input-support"@);
        lemma_not_profiled("appearance"@);
        lemma_not_profiled("width"@);
        assert(halfway(all, shipped, 0) =~= shipped);
    } else {
        lemma_profiles_found(p, all, m - 1);
        lemma_written_is_sound(p, all);
        lemma_profile_sections(all, all.len() as int);
        let profile = all[m - 1];
        let name = profile.process_name;
        let i = 4 + m;
        let section = serialize::profile_section_of(profile);
        let before = halfway(all, shipped, m - 1);
        assert(document[i] == serialize::profile_sections(all, all.len() as int)[m - 1]);
        assert(document[i] == section);
        config::lemma_find_section(document, section.name, 0);
        assert(stands(document, i, section));
        assert(section.name.take(8) =~= "profile."@);
        assert(section.name.skip(8) =~= name);
        assert(parse::profiled(section.name) == Some(name));
        lemma_profile_for(before, name, 0);
        lemma_same_name(name, name, name);
        shipped_profiles_are_complete(p);
        assert forall|j: int| 0 <= j < m - 1 implies !profiles::same_name(
            (#[trigger] before[j]).process_name,
            name,
        ) by {
            assert(before[j] == all[j]);
        }
        if m <= 3 {
            assert(before[m - 1] == shipped[m - 1]);
            assert(profiles::same_name(shipped[m - 1].process_name, name));
            assert(profiles::profile_for(before, name, 0) == Some(m - 1)) by {
                if let Some(k) = profiles::profile_for(before, name, 0) {
                    assert(k >= m - 1);
                    if k > m - 1 {
                        assert(!profiles::same_name(before[m - 1].process_name, name));
                    }
                }
            }
            lemma_profile_found(document, i, profile, before[m - 1]);
            assert(before.update(m - 1, profile) =~= halfway(all, shipped, m));
        } else {
            assert(profiles::profile_for(before, name, 0) is None);
            lemma_profile_found(document, i, profile, profiles::inherited(name, p));
            assert(before.push(profile) =~= halfway(all, shipped, m));
        }
    }
}

proof fn lemma_not_profiled(name: Seq<char>)
    requires
        name.len() > 0,
        name[0] != 'p',
    ensures
        parse::profiled(name) is None,
{
    lemma_five_names();
    if "profile."@.len() <= name.len() {
        assert(name.take(8)[0] == name[0]);
    }
}

/// Preferences and profiles that are written read back as the same preferences and
/// profiles.
pub proof fn written_preferences_read_back(p: Preferences, all: Seq<ProfileView>)
    requires
        complete(all),
        config_text::document_text(serialize::written(p, all)).len() < usize::MAX,
    ensures
        ({
            let text = config_text::document_text(serialize::written(p, all));
            &&& config::parsed(text) matches Ok(document)
            &&& parse::version_of(document) == CONFIG_FORMAT_VERSION
            &&& parse::preferences_of(document) == p
            &&& parse::profiles_of(document) == all
        }),
{
    let document = serialize::written(p, all);
    lemma_written_is_sound(p, all);
    config_text::written_documents_read_back(document);
    written_preferences_are_found(p, serialize::profile_sections(all, all.len() as int));
    lemma_profile_sections(all, all.len() as int);
    lemma_profiles_found(p, all, all.len() as int);
    assert(document.len() == 5 + all.len());
    assert(halfway(all, profiles::shipped(p), all.len() as int) =~= all);
}

/// What a document says stays the same when it is written and read again, whatever
/// its version.
pub proof fn upgrading_loses_nothing(document: Seq<SectionView>)
    requires
        config_text::document_text(
            serialize::written(parse::preferences_of(document), parse::profiles_of(document)),
        ).len() < usize::MAX,
    ensures
        ({
            let p = parse::preferences_of(document);
            let all = parse::profiles_of(document);
            let text = config_text::document_text(serialize::written(p, all));
            &&& config::parsed(text) matches Ok(after)
            &&& parse::version_of(after) == CONFIG_FORMAT_VERSION
            &&& parse::preferences_of(after) == p
            &&& parse::profiles_of(after) == all
        }),
{
    parsed_profiles_are_complete(document);
    written_preferences_read_back(parse::preferences_of(document), parse::profiles_of(document));
}

} // verus!
