//! Reading preferences. A setting that is missing or not known keeps its default;
//! only a document that cannot be read is an error.

use super::model::{
    ConversionMethod, InputMethod, NeuralRerankerScope, Preferences, ShiftSpaceBehavior, SpaceWidth,
    SuggestAccept,
};
use super::profiles;
use super::profiles::{
    default_app_profiles, find_profile, is_valid_profile_process_name, AppProfile, ProfileView,
};
use super::support::InputSupport;
use super::{CONFIG_FORMAT_VERSION, LEGACY_CONFIG_FORMAT_VERSION};
use crate::config;
use crate::config::{Document, ParseError, Section, SectionView};
use crate::input_repair::kana;
use crate::keymap::Preset;
use crate::settings::{AppearanceTheme, Mode, PadShortcut};
use crate::strings;
use crate::width::{BracketStyle, Normalizer, PunctuationStyle, Width, WidthPolicy};
use vstd::prelude::*;

verus! {

/// What a document of preferences says.
#[derive(Debug, PartialEq, Eq)]
pub struct ParsedPreferences {
    /// The version that the document says it is written in: the first one where it
    /// says none, or none that can be read.
    pub source_version: u16,
    pub preferences: Preferences,
    pub profiles: Vec<AppProfile>,
}

impl Clone for ParsedPreferences {
    fn clone(&self) -> (r: Self)
        ensures
            r.source_version == self.source_version,
            r.preferences == self.preferences,
            profiles::views(r.profiles@) == profiles::views(self.profiles@),
    {
        let mut profiles: Vec<AppProfile> = Vec::new();
        let mut i: usize = 0;
        while i < self.profiles.len()
            invariant
                i <= self.profiles@.len(),
                profiles@.len() == i,
                forall|k: int| 0 <= k < i ==> (#[trigger] profiles@[k])@ == self.profiles@[k]@,
            decreases self.profiles@.len() - i,
        {
            profiles.push(self.profiles[i].clone());
            i = i + 1;
        }
        assert(profiles::views(profiles@) =~= profiles::views(self.profiles@));
        ParsedPreferences {
            source_version: self.source_version,
            preferences: self.preferences,
            profiles,
        }
    }
}

impl ParsedPreferences {
    /// Whether the document is written in another version than the current one.
    pub fn needs_upgrade(&self) -> (r: bool)
        ensures
            r == (self.source_version != CONFIG_FORMAT_VERSION),
    {
        self.source_version != CONFIG_FORMAT_VERSION
    }
}

// ---------------------------------------------------------------------------
// The model.

/// The number that decimal digits write.
pub open spec fn decimal_value(s: Seq<char>) -> nat
    decreases s.len(),
{
    if s.len() == 0 {
        0
    } else {
        (decimal_value(s.drop_last()) * 10 + (s.last() as int - '0' as int)) as nat
    }
}

/// Whether a text is made of digits.
pub open spec fn all_digits(s: Seq<char>) -> bool {
    forall|i: int| 0 <= i < s.len() ==> kana::ascii_digit(#[trigger] s[i])
}

/// The number that a text writes, with or without a plus sign, where it is one of
/// sixteen bits.
pub open spec fn number_named(s: Seq<char>) -> Option<u16> {
    let digits = if s.len() > 0 && s[0] == '+' {
        s.skip(1)
    } else {
        s
    };
    if digits.len() == 0 || !all_digits(digits) || decimal_value(digits) > u16::MAX {
        None
    } else {
        Some(decimal_value(digits) as u16)
    }
}

/// The truth value of a name.
pub open spec fn bool_named(s: Seq<char>) -> Option<bool> {
    if s == "true"@ || s == "on"@ || s == "yes"@ {
        Some(true)
    } else if s == "false"@ || s == "off"@ || s == "no"@ {
        Some(false)
    } else {
        None
    }
}

/// The first of two texts, where it is there.
pub open spec fn either(a: Option<Seq<char>>, b: Option<Seq<char>>) -> Option<Seq<char>> {
    match a {
        Some(_) => a,
        None => b,
    }
}

/// What a setting is set to: the default where it is missing or not known.
pub open spec fn chosen<T>(
    text: Option<Seq<char>>,
    named: spec_fn(Seq<char>) -> Option<T>,
    default: T,
) -> T {
    match text {
        Some(name) => match named(name) {
            Some(value) => value,
            None => default,
        },
        None => default,
    }
}

/// A truth value that a setting is set to.
#[verifier::opaque]
pub open spec fn flag_at(
    document: Seq<SectionView>,
    section: Seq<char>,
    key: Seq<char>,
    default: bool,
) -> bool {
    chosen(config::text_at(document, section, key), |s: Seq<char>| bool_named(s), default)
}

/// The version that a document says it is written in, where it says one that can be
/// read.
pub open spec fn declared_version(document: Seq<SectionView>) -> Option<u16> {
    match either(
        config::text_at(document, "meta"@, "format-version"@),
        config::text_at(document, "settings"@, "format-version"@),
    ) {
        Some(text) => number_named(text),
        None => None,
    }
}

/// The version of a document: the first one where it says none that can be read.
pub open spec fn version_of(document: Seq<SectionView>) -> u16 {
    match declared_version(document) {
        Some(version) => version,
        None => LEGACY_CONFIG_FORMAT_VERSION,
    }
}

/// The section that the settings of input are in. Only a document that says it is
/// old keeps them among all the others.
pub open spec fn input_section(declared: Option<u16>) -> Seq<char> {
    match declared {
        Some(version) => if version <= LEGACY_CONFIG_FORMAT_VERSION {
            "settings"@
        } else {
            "input"@
        },
        None => "input"@,
    }
}

/// What a document says of assistance with typing.
pub open spec fn support_of(document: Seq<SectionView>) -> InputSupport {
    let section = "input-support"@;
    InputSupport {
        enabled: flag_at(document, section, "enabled"@, true),
        commit_based: flag_at(document, section, "commit-based"@, true),
        advanced: flag_at(document, section, "advanced"@, true),
        vowel_count: flag_at(document, section, "vowel-count"@, true),
        consonant_extra: flag_at(document, section, "consonant-extra"@, true),
        n_count: flag_at(document, section, "n-count"@, true),
        dakuten_swap: flag_at(document, section, "dakuten-swap"@, true),
        tsu_sokuon: flag_at(document, section, "tsu-sokuon"@, true),
        wa_wo: flag_at(document, section, "wa-wo"@, true),
        small_u: flag_at(document, section, "small-u"@, true),
        fuzzy_proper_nouns: flag_at(document, section, "fuzzy-proper-nouns"@, true),
        english_to_katakana: flag_at(document, section, "english-to-katakana"@, true),
        period_after_digit: flag_at(document, section, "period-after-digit"@, true),
        comma_after_digit: flag_at(document, section, "comma-after-digit"@, true),
        middle_dot_after_digit: flag_at(document, section, "middle-dot-after-digit"@, true),
        long_vowel_after_alnum: flag_at(document, section, "long-vowel-after-alnum"@, true),
    }
}

/// What a document says of how text looks.
pub open spec fn normalizer_of(document: Seq<SectionView>) -> Normalizer {
    let section = "width"@;
    Normalizer {
        width: WidthPolicy {
            alnum: chosen(
                config::text_at(document, section, "alnum"@),
                |s: Seq<char>| Width::named(s),
                Width::Half,
            ),
            number: chosen(
                config::text_at(document, section, "number"@),
                |s: Seq<char>| Width::named(s),
                Width::Half,
            ),
            symbol: chosen(
                config::text_at(document, section, "symbol"@),
                |s: Seq<char>| Width::named(s),
                Width::Half,
            ),
        },
        punctuation: chosen(
            config::text_at(document, section, "punctuation"@),
            |s: Seq<char>| PunctuationStyle::named(s),
            Normalizer::plain().punctuation,
        ),
        brackets: chosen(
            either(
                config::text_at(document, section, "brackets"@),
                config::text_at(document, "punctuation"@, "brackets"@),
            ),
            |s: Seq<char>| BracketStyle::named(s),
            BracketStyle::Corner,
        ),
    }
}

/// What a document says of the local model. It stays as it was where nothing is
/// said, and is off where what is said is not known.
pub open spec fn reranker_of(document: Seq<SectionView>, section: Seq<char>) -> NeuralRerankerScope {
    match config::value_at(document, section, "neural-reranker-scope"@) {
        None => NeuralRerankerScope::LongTextOnly,
        Some(config::ValueView::Text(name)) => match NeuralRerankerScope::named(name) {
            Some(scope) => scope,
            None => NeuralRerankerScope::Off,
        },
        Some(config::ValueView::List(_)) => NeuralRerankerScope::Off,
    }
}

/// The preferences of a document, with the settings of input in `section`.
pub open spec fn preferences_in(document: Seq<SectionView>, section: Seq<char>) -> Preferences {
    Preferences {
        keymap_preset: chosen(
            either(
                config::text_at(document, section, "keymap-preset"@),
                config::text_at(document, section, "keymap"@),
            ),
            |s: Seq<char>| Preset::named(s),
            Preset::MsIme,
        ),
        input_method: chosen(
            config::text_at(document, section, "input-method"@),
            |s: Seq<char>| InputMethod::named(s),
            InputMethod::Romaji,
        ),
        conversion_method: chosen(
            config::text_at(document, section, "conversion-method"@),
            |s: Seq<char>| ConversionMethod::named(s),
            ConversionMethod::MultiSegment,
        ),
        default_mode: chosen(
            config::text_at(document, section, "default-mode"@),
            |s: Seq<char>| Mode::named(s),
            Mode::Hiragana,
        ),
        normalizer: normalizer_of(document),
        space_width: chosen(
            config::text_at(document, section, "space-width"@),
            |s: Seq<char>| SpaceWidth::named(s),
            SpaceWidth::SameAsInput,
        ),
        shift_space_behavior: chosen(
            config::text_at(document, section, "shift-space"@),
            |s: Seq<char>| ShiftSpaceBehavior::named(s),
            ShiftSpaceBehavior::Opposite,
        ),
        prediction_enabled: chosen(
            either(
                config::text_at(document, section, "prediction-enabled"@),
                config::text_at(document, section, "prediction"@),
            ),
            |s: Seq<char>| bool_named(s),
            true,
        ),
        suggest_accept: chosen(
            config::text_at(document, section, "suggest-accept"@),
            |s: Seq<char>| SuggestAccept::named(s),
            SuggestAccept::Tab,
        ),
        association_enabled: flag_at(document, section, "association-enabled"@, true),
        input_support: support_of(document),
        neural_reranker_scope: reranker_of(document, section),
        appearance_theme: chosen(
            config::text_at(document, "appearance"@, "theme"@),
            |s: Seq<char>| AppearanceTheme::named(s),
            AppearanceTheme::Auto,
        ),
        pad_shortcut: chosen(
            config::text_at(document, section, "pad-shortcut"@),
            |s: Seq<char>| PadShortcut::named(s),
            PadShortcut::Disabled,
        ),
        developer_mode: flag_at(document, section, "developer-mode"@, false),
    }
}

/// The preferences of a document.
pub open spec fn preferences_of(document: Seq<SectionView>) -> Preferences {
    preferences_in(document, input_section(declared_version(document)))
}

/// A profile with what a section says of it.
pub open spec fn overridden(
    profile: ProfileView,
    document: Seq<SectionView>,
    section: Seq<char>,
    process_name: Seq<char>,
) -> ProfileView {
    ProfileView {
        process_name,
        default_mode: chosen(
            config::text_at(document, section, "default-mode"@),
            |s: Seq<char>| Mode::named(s),
            profile.default_mode,
        ),
        normalizer: Normalizer {
            width: WidthPolicy {
                alnum: chosen(
                    config::text_at(document, section, "alnum"@),
                    |s: Seq<char>| Width::named(s),
                    profile.normalizer.width.alnum,
                ),
                number: chosen(
                    config::text_at(document, section, "number"@),
                    |s: Seq<char>| Width::named(s),
                    profile.normalizer.width.number,
                ),
                symbol: chosen(
                    config::text_at(document, section, "symbol"@),
                    |s: Seq<char>| Width::named(s),
                    profile.normalizer.width.symbol,
                ),
            },
            punctuation: chosen(
                config::text_at(document, section, "punctuation"@),
                |s: Seq<char>| PunctuationStyle::named(s),
                profile.normalizer.punctuation,
            ),
            brackets: chosen(
                config::text_at(document, section, "brackets"@),
                |s: Seq<char>| BracketStyle::named(s),
                profile.normalizer.brackets,
            ),
        },
        prediction_enabled: chosen(
            either(
                config::text_at(document, section, "prediction-enabled"@),
                config::text_at(document, section, "suggest-enabled"@),
            ),
            |s: Seq<char>| bool_named(s),
            profile.prediction_enabled,
        ),
        suggest_accept: chosen(
            config::text_at(document, section, "suggest-accept"@),
            |s: Seq<char>| SuggestAccept::named(s),
            profile.suggest_accept,
        ),
    }
}

/// The executable that a section is for.
pub open spec fn profiled(section: Seq<char>) -> Option<Seq<char>> {
    let prefix = "profile."@;
    if prefix.len() <= section.len() && section.take(prefix.len() as int) == prefix
        && profiles::valid_process_name(section.skip(prefix.len() as int)) {
        Some(section.skip(prefix.len() as int))
    } else {
        None
    }
}

/// The profiles after one section of a document: a profile that is there is
/// changed, and one that is not is added.
pub open spec fn with_section(
    before: Seq<ProfileView>,
    document: Seq<SectionView>,
    section: Seq<char>,
    preferences: Preferences,
) -> Seq<ProfileView> {
    match profiled(section) {
        None => before,
        Some(name) => match profiles::profile_for(before, name, 0) {
            Some(i) => before.update(i, overridden(before[i], document, section, name)),
            None => before.push(
                overridden(profiles::inherited(name, preferences), document, section, name),
            ),
        },
    }
}

/// The profiles after the first `n` sections of a document.
pub open spec fn profiles_from(document: Seq<SectionView>, preferences: Preferences, n: int) -> Seq<
    ProfileView,
>
    decreases n,
{
    if n <= 0 {
        profiles::shipped(preferences)
    } else {
        with_section(
            profiles_from(document, preferences, n - 1),
            document,
            document[n - 1].name,
            preferences,
        )
    }
}

/// The profiles of a document.
pub open spec fn profiles_of(document: Seq<SectionView>) -> Seq<ProfileView> {
    profiles_from(document, preferences_of(document), document.len() as int)
}

/// Whether parsed preferences are those of a document.
pub open spec fn says(parsed: ParsedPreferences, document: Seq<SectionView>) -> bool {
    &&& parsed.source_version == version_of(document)
    &&& parsed.preferences == preferences_of(document)
    &&& profiles::views(parsed.profiles@) == profiles_of(document)
}

// ---------------------------------------------------------------------------
// Reading.

/// The number that a text writes.
fn parse_number(text: &str) -> (r: Option<u16>)
    ensures
        r == number_named(text@),
{
    let chars: Vec<char> = strings::chars_of(text);
    let start: usize = if chars.len() > 0 && chars[0] == '+' {
        1
    } else {
        0
    };
    let ghost digits = text@.skip(start as int);
    assert(text@.skip(0) =~= text@);
    if chars.len() == start {
        return None;
    }
    let mut value: u32 = 0;
    let mut too_large: bool = false;
    let mut i: usize = start;
    while i < chars.len()
        invariant
            start <= i <= chars@.len(),
            chars@ == text@,
            chars@.len() > start,
            start <= 1,
            start == (if text@.len() > 0 && text@[0] == '+' {
                1int
            } else {
                0
            }),
            digits == text@.skip(start as int),
            start == 0 ==> digits == text@,
            all_digits(digits.take(i - start)),
            value <= 65535,
            !too_large ==> value == decimal_value(digits.take(i - start)),
            too_large ==> decimal_value(digits.take(i - start)) > 65535,
        decreases chars@.len() - i,
    {
        let c: char = chars[i];
        let ghost k = i - start;
        assert(digits[k] == c);
        if !kana::is_ascii_digit(c) {
            assert(!all_digits(digits));
            return None;
        }
        assert(digits.take(k + 1).drop_last() =~= digits.take(k));
        assert(digits.take(k + 1).last() == c);
        assert forall|j: int| 0 <= j < k + 1 implies kana::ascii_digit(
            #[trigger] digits.take(k + 1)[j],
        ) by {
            if j < k {
                assert(digits.take(k)[j] == digits.take(k + 1)[j]);
            }
        }
        if !too_large {
            let next: u32 = value * 10 + (c as u32 - 48);
            if next > 65535 {
                too_large = true;
            } else {
                value = next;
            }
        }
        i = i + 1;
    }
    assert(digits.take(i - start) =~= digits);
    if too_large {
        None
    } else {
        Some(value as u16)
    }
}

/// The truth value of a name.
fn parse_bool(value: &str) -> (r: Option<bool>)
    ensures
        r == bool_named(value@),
{
    if strings::same_text(value, "true") || strings::same_text(value, "on") || strings::same_text(
        value,
        "yes",
    ) {
        Some(true)
    } else if strings::same_text(value, "false") || strings::same_text(value, "off")
        || strings::same_text(value, "no") {
        Some(false)
    } else {
        None
    }
}

/// The style of punctuation of a name.
pub fn parse_punctuation(value: &str) -> (r: Option<PunctuationStyle>)
    ensures
        r == PunctuationStyle::named(value@),
{
    PunctuationStyle::from_name(value)
}

/// The text of a key, or else of another.
fn text_either<'a>(
    document: &'a Document,
    section: &str,
    key: &str,
    other_section: &str,
    other_key: &str,
) -> (r: Option<&'a str>)
    ensures
        match either(
            config::text_at(document@, section@, key@),
            config::text_at(document@, other_section@, other_key@),
        ) {
            Some(s) => r matches Some(t) && t@ == s,
            None => r is None,
        },
{
    match document.text(section, key) {
        Some(text) => Some(text),
        None => document.text(other_section, other_key),
    }
}

/// A truth value.
fn read_bool(text: Option<&str>, default: bool) -> (r: bool)
    ensures
        r == chosen(
            match text {
                Some(t) => Some(t@),
                None => None,
            },
            |s: Seq<char>| bool_named(s),
            default,
        ),
{
    match text {
        Some(name) => match parse_bool(name) {
            Some(value) => value,
            None => default,
        },
        None => default,
    }
}

/// A key map.
fn read_preset(text: Option<&str>, default: Preset) -> (r: Preset)
    ensures
        r == chosen(
            match text {
                Some(t) => Some(t@),
                None => None,
            },
            |s: Seq<char>| Preset::named(s),
            default,
        ),
{
    match text {
        Some(name) => match Preset::from_name(name) {
            Some(value) => value,
            None => default,
        },
        None => default,
    }
}

/// How kana are typed.
fn read_input_method(text: Option<&str>, default: InputMethod) -> (r: InputMethod)
    ensures
        r == chosen(
            match text {
                Some(t) => Some(t@),
                None => None,
            },
            |s: Seq<char>| InputMethod::named(s),
            default,
        ),
{
    match text {
        Some(name) => match InputMethod::from_name(name) {
            Some(value) => value,
            None => default,
        },
        None => default,
    }
}

/// Into how many segments a reading is converted.
fn read_conversion_method(text: Option<&str>, default: ConversionMethod) -> (r: ConversionMethod)
    ensures
        r == chosen(
            match text {
                Some(t) => Some(t@),
                None => None,
            },
            |s: Seq<char>| ConversionMethod::named(s),
            default,
        ),
{
    match text {
        Some(name) => match ConversionMethod::from_name(name) {
            Some(value) => value,
            None => default,
        },
        None => default,
    }
}

/// A mode.
fn read_mode(text: Option<&str>, default: Mode) -> (r: Mode)
    ensures
        r == chosen(
            match text {
                Some(t) => Some(t@),
                None => None,
            },
            |s: Seq<char>| Mode::named(s),
            default,
        ),
{
    match text {
        Some(name) => match Mode::from_name(name) {
            Some(value) => value,
            None => default,
        },
        None => default,
    }
}

/// A width.
fn read_width(text: Option<&str>, default: Width) -> (r: Width)
    ensures
        r == chosen(
            match text {
                Some(t) => Some(t@),
                None => None,
            },
            |s: Seq<char>| Width::named(s),
            default,
        ),
{
    match text {
        Some(name) => match Width::from_name(name) {
            Some(value) => value,
            None => default,
        },
        None => default,
    }
}

/// A style of punctuation.
fn read_punctuation(text: Option<&str>, default: PunctuationStyle) -> (r: PunctuationStyle)
    ensures
        r == chosen(
            match text {
                Some(t) => Some(t@),
                None => None,
            },
            |s: Seq<char>| PunctuationStyle::named(s),
            default,
        ),
{
    match text {
        Some(name) => match parse_punctuation(name) {
            Some(value) => value,
            None => default,
        },
        None => default,
    }
}

/// A style of brackets.
fn read_brackets(text: Option<&str>, default: BracketStyle) -> (r: BracketStyle)
    ensures
        r == chosen(
            match text {
                Some(t) => Some(t@),
                None => None,
            },
            |s: Seq<char>| BracketStyle::named(s),
            default,
        ),
{
    match text {
        Some(name) => match BracketStyle::from_name(name) {
            Some(value) => value,
            None => default,
        },
        None => default,
    }
}

/// The width of the space.
fn read_space_width(text: Option<&str>, default: SpaceWidth) -> (r: SpaceWidth)
    ensures
        r == chosen(
            match text {
                Some(t) => Some(t@),
                None => None,
            },
            |s: Seq<char>| SpaceWidth::named(s),
            default,
        ),
{
    match text {
        Some(name) => match SpaceWidth::from_name(name) {
            Some(value) => value,
            None => default,
        },
        None => default,
    }
}

/// The width of the space with Shift.
fn read_shift_space(text: Option<&str>, default: ShiftSpaceBehavior) -> (r: ShiftSpaceBehavior)
    ensures
        r == chosen(
            match text {
                Some(t) => Some(t@),
                None => None,
            },
            |s: Seq<char>| ShiftSpaceBehavior::named(s),
            default,
        ),
{
    match text {
        Some(name) => match ShiftSpaceBehavior::from_name(name) {
            Some(value) => value,
            None => default,
        },
        None => default,
    }
}

/// The key that accepts a suggestion.
fn read_suggest_accept(text: Option<&str>, default: SuggestAccept) -> (r: SuggestAccept)
    ensures
        r == chosen(
            match text {
                Some(t) => Some(t@),
                None => None,
            },
            |s: Seq<char>| SuggestAccept::named(s),
            default,
        ),
{
    match text {
        Some(name) => match SuggestAccept::from_name(name) {
            Some(value) => value,
            None => default,
        },
        None => default,
    }
}

/// The colours of the windows.
fn read_theme(text: Option<&str>, default: AppearanceTheme) -> (r: AppearanceTheme)
    ensures
        r == chosen(
            match text {
                Some(t) => Some(t@),
                None => None,
            },
            |s: Seq<char>| AppearanceTheme::named(s),
            default,
        ),
{
    match text {
        Some(name) => match AppearanceTheme::from_name(name) {
            Some(value) => value,
            None => default,
        },
        None => default,
    }
}

/// The keys that open the pad.
fn read_pad_shortcut(text: Option<&str>, default: PadShortcut) -> (r: PadShortcut)
    ensures
        r == chosen(
            match text {
                Some(t) => Some(t@),
                None => None,
            },
            |s: Seq<char>| PadShortcut::named(s),
            default,
        ),
{
    match text {
        Some(name) => match PadShortcut::from_name(name) {
            Some(value) => value,
            None => default,
        },
        None => default,
    }
}

/// What a document says of assistance with typing.
fn parse_input_support(document: &Document) -> (r: InputSupport)
    ensures
        r == support_of(document@),
{
    proof {
        reveal(flag_at);
    }
    let section = "input-support";
    InputSupport {
        enabled: read_bool(document.text(section, "enabled"), true),
        commit_based: read_bool(document.text(section, "commit-based"), true),
        advanced: read_bool(document.text(section, "advanced"), true),
        vowel_count: read_bool(document.text(section, "vowel-count"), true),
        consonant_extra: read_bool(document.text(section, "consonant-extra"), true),
        n_count: read_bool(document.text(section, "n-count"), true),
        dakuten_swap: read_bool(document.text(section, "dakuten-swap"), true),
        tsu_sokuon: read_bool(document.text(section, "tsu-sokuon"), true),
        wa_wo: read_bool(document.text(section, "wa-wo"), true),
        small_u: read_bool(document.text(section, "small-u"), true),
        fuzzy_proper_nouns: read_bool(document.text(section, "fuzzy-proper-nouns"), true),
        english_to_katakana: read_bool(document.text(section, "english-to-katakana"), true),
        period_after_digit: read_bool(document.text(section, "period-after-digit"), true),
        comma_after_digit: read_bool(document.text(section, "comma-after-digit"), true),
        middle_dot_after_digit: read_bool(document.text(section, "middle-dot-after-digit"), true),
        long_vowel_after_alnum: read_bool(document.text(section, "long-vowel-after-alnum"), true),
    }
}

/// What a document says of how text looks.
fn parse_normalizer(document: &Document) -> (r: Normalizer)
    ensures
        r == normalizer_of(document@),
{
    let section = "width";
    Normalizer {
        width: WidthPolicy {
            alnum: read_width(document.text(section, "alnum"), Width::Half),
            number: read_width(document.text(section, "number"), Width::Half),
            symbol: read_width(document.text(section, "symbol"), Width::Half),
        },
        punctuation: read_punctuation(
            document.text(section, "punctuation"),
            PunctuationStyle::kuten_touten(),
        ),
        brackets: read_brackets(
            text_either(document, section, "brackets", "punctuation", "brackets"),
            BracketStyle::Corner,
        ),
    }
}

/// What a document says of the local model.
fn parse_reranker(document: &Document, section: &str) -> (r: NeuralRerankerScope)
    ensures
        r == reranker_of(document@, section@),
{
    match document.value(section, "neural-reranker-scope") {
        None => NeuralRerankerScope::LongTextOnly,
        Some(value) => match value.as_text() {
            Some(name) => match NeuralRerankerScope::from_name(name) {
                Some(scope) => scope,
                None => NeuralRerankerScope::Off,
            },
            None => NeuralRerankerScope::Off,
        },
    }
}

/// The preferences of a document, with the settings of input in `section`.
fn parse_settings(document: &Document, section: &str) -> (r: Preferences)
    ensures
        r == preferences_in(document@, section@),
{
    proof {
        reveal(flag_at);
    }
    Preferences {
        keymap_preset: read_preset(
            text_either(document, section, "keymap-preset", section, "keymap"),
            Preset::MsIme,
        ),
        input_method: read_input_method(
            document.text(section, "input-method"),
            InputMethod::Romaji,
        ),
        conversion_method: read_conversion_method(
            document.text(section, "conversion-method"),
            ConversionMethod::MultiSegment,
        ),
        default_mode: read_mode(document.text(section, "default-mode"), Mode::Hiragana),
        normalizer: parse_normalizer(document),
        space_width: read_space_width(
            document.text(section, "space-width"),
            SpaceWidth::SameAsInput,
        ),
        shift_space_behavior: read_shift_space(
            document.text(section, "shift-space"),
            ShiftSpaceBehavior::Opposite,
        ),
        prediction_enabled: read_bool(
            text_either(document, section, "prediction-enabled", section, "prediction"),
            true,
        ),
        suggest_accept: read_suggest_accept(
            document.text(section, "suggest-accept"),
            SuggestAccept::Tab,
        ),
        association_enabled: read_bool(document.text(section, "association-enabled"), true),
        input_support: parse_input_support(document),
        neural_reranker_scope: parse_reranker(document, section),
        appearance_theme: read_theme(document.text("appearance", "theme"), AppearanceTheme::Auto),
        pad_shortcut: read_pad_shortcut(
            document.text(section, "pad-shortcut"),
            PadShortcut::Disabled,
        ),
        developer_mode: read_bool(document.text(section, "developer-mode"), false),
    }
}

/// A profile with what a section says of it.
fn parse_profile(
    profile: &AppProfile,
    document: &Document,
    section: &str,
    process_name: &str,
) -> (r: AppProfile)
    ensures
        r@ == overridden(profile@, document@, section@, process_name@),
{
    let before: Normalizer = profile.normalizer;
    AppProfile {
        process_name: process_name.to_owned(),
        default_mode: read_mode(document.text(section, "default-mode"), profile.default_mode),
        normalizer: Normalizer {
            width: WidthPolicy {
                alnum: read_width(document.text(section, "alnum"), before.width.alnum),
                number: read_width(document.text(section, "number"), before.width.number),
                symbol: read_width(document.text(section, "symbol"), before.width.symbol),
            },
            punctuation: read_punctuation(
                document.text(section, "punctuation"),
                before.punctuation,
            ),
            brackets: read_brackets(document.text(section, "brackets"), before.brackets),
        },
        prediction_enabled: read_bool(
            text_either(document, section, "prediction-enabled", section, "suggest-enabled"),
            profile.prediction_enabled,
        ),
        suggest_accept: read_suggest_accept(
            document.text(section, "suggest-accept"),
            profile.suggest_accept,
        ),
    }
}

/// The executable that a section is for.
fn parse_profile_section(section: &str) -> (r: Option<String>)
    ensures
        match profiled(section@) {
            Some(name) => r matches Some(s) && s@ == name,
            None => r is None,
        },
{
    let chars: Vec<char> = strings::chars_of(section);
    let prefix: Vec<char> = strings::chars_of("profile.");
    if chars.len() < prefix.len() {
        return None;
    }
    let mut i: usize = 0;
    while i < prefix.len()
        invariant
            i <= prefix@.len() <= chars@.len(),
            prefix@ == "profile."@,
            chars@ == section@,
            forall|k: int| 0 <= k < i ==> chars@[k] == #[trigger] prefix@[k],
        decreases prefix@.len() - i,
    {
        if chars[i] != prefix[i] {
            assert(section@.take(prefix@.len() as int)[i as int] != prefix@[i as int]);
            return None;
        }
        i = i + 1;
    }
    assert(section@.take(prefix@.len() as int) =~= prefix@);
    let rest: &[char] = vstd::slice::slice_subrange(chars.as_slice(), prefix.len(), chars.len());
    assert(rest@ =~= section@.skip(prefix@.len() as int));
    let name: String = strings::string_of(rest);
    if is_valid_profile_process_name(name.as_str()) {
        Some(name)
    } else {
        None
    }
}

/// The profiles of a document: the shipped ones, and those that its sections add or
/// change.
fn parse_app_profiles(document: &Document, preferences: Preferences) -> (r: Vec<AppProfile>)
    ensures
        profiles::views(r@) == profiles_from(document@, preferences, document@.len() as int),
{
    let mut found: Vec<AppProfile> = default_app_profiles(preferences);
    let sections: &[Section] = document.sections();
    let mut i: usize = 0;
    while i < sections.len()
        invariant
            i <= sections@.len(),
            config::section_views(sections@) == document@,
            profiles::views(found@) == profiles_from(document@, preferences, i as int),
        decreases sections@.len() - i,
    {
        let section: &str = sections[i].name.as_str();
        assert(document@[i as int].name == section@);
        let ghost before = profiles::views(found@);
        if let Some(name) = parse_profile_section(section) {
            match find_profile(&found, name.as_str()) {
                Some(k) => {
                    assert(before[k as int] == found@[k as int]@);
                    let profile: AppProfile = parse_profile(
                        &found[k],
                        document,
                        section,
                        name.as_str(),
                    );
                    found.set(k, profile);
                    assert(profiles::views(found@) =~= before.update(k as int, profile@));
                },
                None => {
                    let inherited: AppProfile = AppProfile::inherited(name.as_str(), preferences);
                    let profile: AppProfile = parse_profile(
                        &inherited,
                        document,
                        section,
                        name.as_str(),
                    );
                    found.push(profile);
                    assert(profiles::views(found@) =~= before.push(profile@));
                },
            }
        }
        i = i + 1;
    }
    found
}

/// Reads preferences.
pub fn parse_preferences(source: &str) -> (r: Result<ParsedPreferences, ParseError>)
    ensures
        match config::parsed(source@) {
            Ok(document) => r matches Ok(parsed) && says(parsed, document),
            Err((line, kind)) => r matches Err(e) && e.line == line && e.kind == kind,
        },
{
    let document: Document = match config::parse(source) {
        Ok(document) => document,
        Err(error) => {
            return Err(error);
        },
    };
    let declared: Option<u16> = match text_either(
        &document,
        "meta",
        "format-version",
        "settings",
        "format-version",
    ) {
        Some(version) => parse_number(version),
        None => None,
    };
    let (source_version, section): (u16, &str) = match declared {
        Some(version) => if version <= LEGACY_CONFIG_FORMAT_VERSION {
            (version, "settings")
        } else {
            (version, "input")
        },
        None => (LEGACY_CONFIG_FORMAT_VERSION, "input"),
    };
    let preferences: Preferences = parse_settings(&document, section);
    let profiles: Vec<AppProfile> = parse_app_profiles(&document, preferences);
    Ok(ParsedPreferences { source_version, preferences, profiles })
}

} // verus!
