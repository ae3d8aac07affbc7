//! What holds of every setting of a document, and of the profiles in it.

use super::laws::{complete, lemma_profile_for, lemma_profiles_complete, lemma_same_name};
use super::model::{
    ConversionMethod, InputMethod, NeuralRerankerScope, Preferences, ShiftSpaceBehavior, SpaceWidth,
    SuggestAccept,
};
use super::parse;
use super::profiles;
use super::profiles::ProfileView;
use super::support::InputSupport;
use crate::config;
use crate::config::{SectionView, ValueView};
use crate::input_repair::kana;
use crate::keymap::Preset;
use crate::settings::{AppearanceTheme, Mode, PadShortcut};
use crate::width::{BracketStyle, Width};
use vstd::prelude::*;

verus! {

// ---------------------------------------------------------------------------
// Names.

/// Whether a setting is what a text says: the value that has the text for its name, and
/// the default where there is no text, or one that names nothing.
#[verifier::opaque]
pub open spec fn follows<T>(
    text: Option<Seq<char>>,
    names: Seq<(Seq<char>, T)>,
    default: T,
    value: T,
) -> bool {
    &&& forall|k: int|
        0 <= k < names.len() && text == Some((#[trigger] names[k]).0) ==> value == names[k].1
    &&& (forall|k: int| 0 <= k < names.len() ==> text != Some((#[trigger] names[k]).0)) ==> value
        == default
}

/// The names of the key bindings.
pub open spec fn preset_names() -> Seq<(Seq<char>, Preset)> {
    seq![
        ("ms-ime"@, Preset::MsIme),
        ("atok"@, Preset::Atok),
    ]
}

proof fn lemma_preset(text: Option<Seq<char>>, default: Preset, value: Preset)
    requires
        value == match text {
            Some(s) => match Preset::named(s) {
                Some(v) => v,
                None => default,
            },
            None => default,
        },
    ensures
        follows(text, preset_names(), default, value),
{
    reveal(follows);
    let names = preset_names();
    reveal_strlit("ms-ime");
    reveal_strlit("atok");
    assert("ms-ime"@.len() != "atok"@.len());
    assert(names[0] == ("ms-ime"@, Preset::MsIme));
    assert(names[1] == ("atok"@, Preset::Atok));
}

/// The names of the methods of input.
pub open spec fn input_method_names() -> Seq<(Seq<char>, InputMethod)> {
    seq![
        ("romaji"@, InputMethod::Romaji),
        ("kana"@, InputMethod::Kana),
    ]
}

proof fn lemma_input_method(text: Option<Seq<char>>, default: InputMethod, value: InputMethod)
    requires
        value == match text {
            Some(s) => match InputMethod::named(s) {
                Some(v) => v,
                None => default,
            },
            None => default,
        },
    ensures
        follows(text, input_method_names(), default, value),
{
    reveal(follows);
    let names = input_method_names();
    InputMethod::Romaji.name_round_trips();
    InputMethod::Kana.name_round_trips();
    assert(names[0] == ("romaji"@, InputMethod::Romaji));
    assert(names[1] == ("kana"@, InputMethod::Kana));
}

/// The names of the methods of conversion.
pub open spec fn conversion_method_names() -> Seq<(Seq<char>, ConversionMethod)> {
    seq![
        ("multi-segment"@, ConversionMethod::MultiSegment),
        ("single-segment"@, ConversionMethod::SingleSegment),
    ]
}

proof fn lemma_conversion_method(
    text: Option<Seq<char>>,
    default: ConversionMethod,
    value: ConversionMethod,
)
    requires
        value == match text {
            Some(s) => match ConversionMethod::named(s) {
                Some(v) => v,
                None => default,
            },
            None => default,
        },
    ensures
        follows(text, conversion_method_names(), default, value),
{
    reveal(follows);
    let names = conversion_method_names();
    ConversionMethod::MultiSegment.name_round_trips();
    ConversionMethod::SingleSegment.name_round_trips();
    assert(names[0] == ("multi-segment"@, ConversionMethod::MultiSegment));
    assert(names[1] == ("single-segment"@, ConversionMethod::SingleSegment));
}

/// The names of the modes.
pub open spec fn mode_names() -> Seq<(Seq<char>, Mode)> {
    seq![
        ("direct"@, Mode::Direct),
        ("hiragana"@, Mode::Hiragana),
        ("katakana"@, Mode::Katakana),
        ("half-katakana"@, Mode::HalfKatakana),
        ("full-alnum"@, Mode::FullAlnum),
        ("half-alnum"@, Mode::HalfAlnum),
    ]
}

proof fn lemma_mode(text: Option<Seq<char>>, default: Mode, value: Mode)
    requires
        value == match text {
            Some(s) => match Mode::named(s) {
                Some(v) => v,
                None => default,
            },
            None => default,
        },
    ensures
        follows(text, mode_names(), default, value),
{
    reveal(follows);
    let names = mode_names();
    Mode::Direct.name_round_trips();
    Mode::Hiragana.name_round_trips();
    Mode::Katakana.name_round_trips();
    Mode::HalfKatakana.name_round_trips();
    Mode::FullAlnum.name_round_trips();
    Mode::HalfAlnum.name_round_trips();
    assert(names[0] == ("direct"@, Mode::Direct));
    assert(names[1] == ("hiragana"@, Mode::Hiragana));
    assert(names[2] == ("katakana"@, Mode::Katakana));
    assert(names[3] == ("half-katakana"@, Mode::HalfKatakana));
    assert(names[4] == ("full-alnum"@, Mode::FullAlnum));
    assert(names[5] == ("half-alnum"@, Mode::HalfAlnum));
}

/// The names of the widths of the space.
pub open spec fn space_width_names() -> Seq<(Seq<char>, SpaceWidth)> {
    seq![
        ("same-as-input"@, SpaceWidth::SameAsInput),
        ("full"@, SpaceWidth::Full),
        ("half"@, SpaceWidth::Half),
    ]
}

proof fn lemma_space_width(text: Option<Seq<char>>, default: SpaceWidth, value: SpaceWidth)
    requires
        value == match text {
            Some(s) => match SpaceWidth::named(s) {
                Some(v) => v,
                None => default,
            },
            None => default,
        },
    ensures
        follows(text, space_width_names(), default, value),
{
    reveal(follows);
    let names = space_width_names();
    SpaceWidth::SameAsInput.name_round_trips();
    SpaceWidth::Full.name_round_trips();
    SpaceWidth::Half.name_round_trips();
    assert(names[0] == ("same-as-input"@, SpaceWidth::SameAsInput));
    assert(names[1] == ("full"@, SpaceWidth::Full));
    assert(names[2] == ("half"@, SpaceWidth::Half));
}

/// The names of the widths of the space with Shift.
pub open spec fn shift_space_behavior_names() -> Seq<(Seq<char>, ShiftSpaceBehavior)> {
    seq![
        ("opposite"@, ShiftSpaceBehavior::Opposite),
        ("full"@, ShiftSpaceBehavior::Full),
        ("half"@, ShiftSpaceBehavior::Half),
    ]
}

proof fn lemma_shift_space_behavior(
    text: Option<Seq<char>>,
    default: ShiftSpaceBehavior,
    value: ShiftSpaceBehavior,
)
    requires
        value == match text {
            Some(s) => match ShiftSpaceBehavior::named(s) {
                Some(v) => v,
                None => default,
            },
            None => default,
        },
    ensures
        follows(text, shift_space_behavior_names(), default, value),
{
    reveal(follows);
    let names = shift_space_behavior_names();
    ShiftSpaceBehavior::Opposite.name_round_trips();
    ShiftSpaceBehavior::Full.name_round_trips();
    ShiftSpaceBehavior::Half.name_round_trips();
    assert(names[0] == ("opposite"@, ShiftSpaceBehavior::Opposite));
    assert(names[1] == ("full"@, ShiftSpaceBehavior::Full));
    assert(names[2] == ("half"@, ShiftSpaceBehavior::Half));
}

/// The names of the keys that take what is suggested.
pub open spec fn suggest_accept_names() -> Seq<(Seq<char>, SuggestAccept)> {
    seq![
        ("tab"@, SuggestAccept::Tab),
        ("shift-enter"@, SuggestAccept::ShiftEnter),
        ("disabled"@, SuggestAccept::Disabled),
    ]
}

proof fn lemma_suggest_accept(text: Option<Seq<char>>, default: SuggestAccept, value: SuggestAccept)
    requires
        value == match text {
            Some(s) => match SuggestAccept::named(s) {
                Some(v) => v,
                None => default,
            },
            None => default,
        },
    ensures
        follows(text, suggest_accept_names(), default, value),
{
    reveal(follows);
    let names = suggest_accept_names();
    SuggestAccept::Tab.name_round_trips();
    SuggestAccept::ShiftEnter.name_round_trips();
    SuggestAccept::Disabled.name_round_trips();
    assert(names[0] == ("tab"@, SuggestAccept::Tab));
    assert(names[1] == ("shift-enter"@, SuggestAccept::ShiftEnter));
    assert(names[2] == ("disabled"@, SuggestAccept::Disabled));
}

/// The names of the scopes of the local model.
pub open spec fn neural_reranker_scope_names() -> Seq<(Seq<char>, NeuralRerankerScope)> {
    seq![
        ("off"@, NeuralRerankerScope::Off),
        ("long-text-only"@, NeuralRerankerScope::LongTextOnly),
        ("all-normal-conversions"@, NeuralRerankerScope::AllNormalConversions),
    ]
}

proof fn lemma_neural_reranker_scope(
    text: Option<Seq<char>>,
    default: NeuralRerankerScope,
    value: NeuralRerankerScope,
)
    requires
        value == match text {
            Some(s) => match NeuralRerankerScope::named(s) {
                Some(v) => v,
                None => default,
            },
            None => default,
        },
    ensures
        follows(text, neural_reranker_scope_names(), default, value),
{
    reveal(follows);
    let names = neural_reranker_scope_names();
    NeuralRerankerScope::Off.name_round_trips();
    NeuralRerankerScope::LongTextOnly.name_round_trips();
    NeuralRerankerScope::AllNormalConversions.name_round_trips();
    assert(names[0] == ("off"@, NeuralRerankerScope::Off));
    assert(names[1] == ("long-text-only"@, NeuralRerankerScope::LongTextOnly));
    assert(names[2] == ("all-normal-conversions"@, NeuralRerankerScope::AllNormalConversions));
}

/// The names of the themes.
pub open spec fn appearance_theme_names() -> Seq<(Seq<char>, AppearanceTheme)> {
    seq![
        ("auto"@, AppearanceTheme::Auto),
        ("light"@, AppearanceTheme::Light),
        ("dark"@, AppearanceTheme::Dark),
    ]
}

proof fn lemma_appearance_theme(
    text: Option<Seq<char>>,
    default: AppearanceTheme,
    value: AppearanceTheme,
)
    requires
        value == match text {
            Some(s) => match AppearanceTheme::named(s) {
                Some(v) => v,
                None => default,
            },
            None => default,
        },
    ensures
        follows(text, appearance_theme_names(), default, value),
{
    reveal(follows);
    let names = appearance_theme_names();
    AppearanceTheme::Auto.name_round_trips();
    AppearanceTheme::Light.name_round_trips();
    AppearanceTheme::Dark.name_round_trips();
    assert(names[0] == ("auto"@, AppearanceTheme::Auto));
    assert(names[1] == ("light"@, AppearanceTheme::Light));
    assert(names[2] == ("dark"@, AppearanceTheme::Dark));
}

/// The names of the shortcuts.
pub open spec fn pad_shortcut_names() -> Seq<(Seq<char>, PadShortcut)> {
    seq![
        ("disabled"@, PadShortcut::Disabled),
        ("double-ctrl"@, PadShortcut::DoubleCtrl),
    ]
}

proof fn lemma_pad_shortcut(text: Option<Seq<char>>, default: PadShortcut, value: PadShortcut)
    requires
        value == match text {
            Some(s) => match PadShortcut::named(s) {
                Some(v) => v,
                None => default,
            },
            None => default,
        },
    ensures
        follows(text, pad_shortcut_names(), default, value),
{
    reveal(follows);
    let names = pad_shortcut_names();
    PadShortcut::Disabled.name_round_trips();
    PadShortcut::DoubleCtrl.name_round_trips();
    assert(names[0] == ("disabled"@, PadShortcut::Disabled));
    assert(names[1] == ("double-ctrl"@, PadShortcut::DoubleCtrl));
}

/// The names of the widths.
pub open spec fn width_names() -> Seq<(Seq<char>, Width)> {
    seq![
        ("half"@, Width::Half),
        ("full"@, Width::Full),
        ("follow-mode"@, Width::FollowMode),
    ]
}

proof fn lemma_width(text: Option<Seq<char>>, default: Width, value: Width)
    requires
        value == match text {
            Some(s) => match Width::named(s) {
                Some(v) => v,
                None => default,
            },
            None => default,
        },
    ensures
        follows(text, width_names(), default, value),
{
    reveal(follows);
    let names = width_names();
    Width::Half.name_round_trips();
    Width::Full.name_round_trips();
    Width::FollowMode.name_round_trips();
    assert(names[0] == ("half"@, Width::Half));
    assert(names[1] == ("full"@, Width::Full));
    assert(names[2] == ("follow-mode"@, Width::FollowMode));
}

/// The names of the brackets.
pub open spec fn bracket_style_names() -> Seq<(Seq<char>, BracketStyle)> {
    seq![
        ("corner"@, BracketStyle::Corner),
        ("square"@, BracketStyle::Square),
    ]
}

proof fn lemma_bracket_style(text: Option<Seq<char>>, default: BracketStyle, value: BracketStyle)
    requires
        value == match text {
            Some(s) => match BracketStyle::named(s) {
                Some(v) => v,
                None => default,
            },
            None => default,
        },
    ensures
        follows(text, bracket_style_names(), default, value),
{
    reveal(follows);
    let names = bracket_style_names();
    BracketStyle::Corner.name_round_trips();
    BracketStyle::Square.name_round_trips();
    assert(names[0] == ("corner"@, BracketStyle::Corner));
    assert(names[1] == ("square"@, BracketStyle::Square));
}

/// The names of the truth values.
pub open spec fn bool_names() -> Seq<(Seq<char>, bool)> {
    seq![
        ("true"@, true),
        ("on"@, true),
        ("yes"@, true),
        ("false"@, false),
        ("off"@, false),
        ("no"@, false),
    ]
}

proof fn lemma_bool(text: Option<Seq<char>>, default: bool, value: bool)
    requires
        value == match text {
            Some(s) => match parse::bool_named(s) {
                Some(v) => v,
                None => default,
            },
            None => default,
        },
    ensures
        follows(text, bool_names(), default, value),
{
    reveal_strlit("true");
    reveal_strlit("on");
    reveal_strlit("yes");
    reveal_strlit("false");
    reveal_strlit("off");
    reveal_strlit("no");
    reveal(follows);
    let names = bool_names();
    assert(names[0] == ("true"@, true));
    assert(names[1] == ("on"@, true));
    assert(names[2] == ("yes"@, true));
    assert(names[3] == ("false"@, false));
    assert(names[4] == ("off"@, false));
    assert(names[5] == ("no"@, false));
    assert("true"@[0] == 't' && "on"@[0] == 'o' && "yes"@[0] == 'y');
    assert("false"@[0] == 'f' && "off"@.len() == 3 && "no"@[0] == 'n' && "on"@.len() == 2);
}

// ---------------------------------------------------------------------------
// Settings.

/// The section that the settings of input are in: only a document that says it is of the
/// first version, or of one before, has them in `settings`.
pub open spec fn is_input_section(document: Seq<SectionView>, section: Seq<char>) -> bool {
    match parse::declared_version(document) {
        Some(version) => section == if version <= 1 {
            "settings"@
        } else {
            "input"@
        },
        None => section == "input"@,
    }
}

/// Every setting of input is what its key says, and at its default where the key is
/// missing or says nothing that is known, whatever the other keys say.
pub proof fn settings_of_input_follow_their_keys(document: Seq<SectionView>, section: Seq<char>)
    requires
        is_input_section(document, section),
    ensures
        ({
            let p = parse::preferences_of(document);
            &&& follows(
                parse::either(
                    config::text_at(document, section, "keymap-preset"@),
                    config::text_at(document, section, "keymap"@),
                ),
                preset_names(),
                Preset::MsIme,
                p.keymap_preset,
            )
            &&& follows(
                config::text_at(document, section, "input-method"@),
                input_method_names(),
                InputMethod::Romaji,
                p.input_method,
            )
            &&& follows(
                config::text_at(document, section, "conversion-method"@),
                conversion_method_names(),
                ConversionMethod::MultiSegment,
                p.conversion_method,
            )
            &&& follows(
                config::text_at(document, section, "default-mode"@),
                mode_names(),
                Mode::Hiragana,
                p.default_mode,
            )
            &&& follows(
                config::text_at(document, section, "space-width"@),
                space_width_names(),
                SpaceWidth::SameAsInput,
                p.space_width,
            )
            &&& follows(
                config::text_at(document, section, "shift-space"@),
                shift_space_behavior_names(),
                ShiftSpaceBehavior::Opposite,
                p.shift_space_behavior,
            )
            &&& follows(
                parse::either(
                    config::text_at(document, section, "prediction-enabled"@),
                    config::text_at(document, section, "prediction"@),
                ),
                bool_names(),
                true,
                p.prediction_enabled,
            )
            &&& follows(
                config::text_at(document, section, "suggest-accept"@),
                suggest_accept_names(),
                SuggestAccept::Tab,
                p.suggest_accept,
            )
            &&& follows(
                config::text_at(document, section, "association-enabled"@),
                bool_names(),
                true,
                p.association_enabled,
            )
            &&& follows(
                config::text_at(document, section, "pad-shortcut"@),
                pad_shortcut_names(),
                PadShortcut::Disabled,
                p.pad_shortcut,
            )
            &&& follows(
                config::text_at(document, section, "developer-mode"@),
                bool_names(),
                false,
                p.developer_mode,
            )
        }),
{
    let p = parse::preferences_of(document);
    reveal(parse::flag_at);
    lemma_preset(
        parse::either(
            config::text_at(document, section, "keymap-preset"@),
            config::text_at(document, section, "keymap"@),
        ),
        Preset::MsIme,
        p.keymap_preset,
    );
    lemma_input_method(
        config::text_at(document, section, "input-method"@),
        InputMethod::Romaji,
        p.input_method,
    );
    lemma_conversion_method(
        config::text_at(document, section, "conversion-method"@),
        ConversionMethod::MultiSegment,
        p.conversion_method,
    );
    lemma_mode(config::text_at(document, section, "default-mode"@), Mode::Hiragana, p.default_mode);
    lemma_space_width(
        config::text_at(document, section, "space-width"@),
        SpaceWidth::SameAsInput,
        p.space_width,
    );
    lemma_shift_space_behavior(
        config::text_at(document, section, "shift-space"@),
        ShiftSpaceBehavior::Opposite,
        p.shift_space_behavior,
    );
    lemma_bool(
        parse::either(
            config::text_at(document, section, "prediction-enabled"@),
            config::text_at(document, section, "prediction"@),
        ),
        true,
        p.prediction_enabled,
    );
    lemma_suggest_accept(
        config::text_at(document, section, "suggest-accept"@),
        SuggestAccept::Tab,
        p.suggest_accept,
    );
    lemma_bool(
        config::text_at(document, section, "association-enabled"@),
        true,
        p.association_enabled,
    );
    lemma_pad_shortcut(
        config::text_at(document, section, "pad-shortcut"@),
        PadShortcut::Disabled,
        p.pad_shortcut,
    );
    lemma_bool(config::text_at(document, section, "developer-mode"@), false, p.developer_mode);
}

/// So is every setting of the looks of text.
pub proof fn settings_of_looks_follow_their_keys(document: Seq<SectionView>)
    ensures
        ({
            let p = parse::preferences_of(document);
            &&& follows(
                config::text_at(document, "appearance"@, "theme"@),
                appearance_theme_names(),
                AppearanceTheme::Auto,
                p.appearance_theme,
            )
            &&& follows(
                config::text_at(document, "width"@, "alnum"@),
                width_names(),
                Width::Half,
                p.normalizer.width.alnum,
            )
            &&& follows(
                config::text_at(document, "width"@, "number"@),
                width_names(),
                Width::Half,
                p.normalizer.width.number,
            )
            &&& follows(
                config::text_at(document, "width"@, "symbol"@),
                width_names(),
                Width::Half,
                p.normalizer.width.symbol,
            )
            &&& follows(
                parse::either(
                    config::text_at(document, "width"@, "brackets"@),
                    config::text_at(document, "punctuation"@, "brackets"@),
                ),
                bracket_style_names(),
                BracketStyle::Corner,
                p.normalizer.brackets,
            )
            &&& config::text_at(document, "width"@, "punctuation"@) is None
                ==> p.normalizer.punctuation.name_of() == "kuten-touten"@
        }),
{
    let p = parse::preferences_of(document);
    lemma_appearance_theme(
        config::text_at(document, "appearance"@, "theme"@),
        AppearanceTheme::Auto,
        p.appearance_theme,
    );
    lemma_width(
        config::text_at(document, "width"@, "alnum"@),
        Width::Half,
        p.normalizer.width.alnum,
    );
    lemma_width(
        config::text_at(document, "width"@, "number"@),
        Width::Half,
        p.normalizer.width.number,
    );
    lemma_width(
        config::text_at(document, "width"@, "symbol"@),
        Width::Half,
        p.normalizer.width.symbol,
    );
    lemma_bracket_style(
        parse::either(
            config::text_at(document, "width"@, "brackets"@),
            config::text_at(document, "punctuation"@, "brackets"@),
        ),
        BracketStyle::Corner,
        p.normalizer.brackets,
    );
}

/// Whether a flag of assistance is what its key says, and on where the key is missing or
/// says nothing that is known.
#[verifier::opaque]
pub open spec fn flag_follows(document: Seq<SectionView>, key: Seq<char>, value: bool) -> bool {
    follows(config::text_at(document, "input-support"@, key), bool_names(), true, value)
}

proof fn lemma_flag(document: Seq<SectionView>, key: Seq<char>, value: bool)
    requires
        value == parse::flag_at(document, "input-support"@, key, true),
    ensures
        flag_follows(document, key, value),
{
    reveal(parse::flag_at);
    reveal(flag_follows);
    lemma_bool(config::text_at(document, "input-support"@, key), true, value);
}

proof fn lemma_support(document: Seq<SectionView>)
    ensures
        parse::preferences_of(document).input_support == parse::support_of(document),
{
}

/// Whether the first four flags of assistance are what their keys say.
#[verifier::opaque]
pub open spec fn first_flags_follow(document: Seq<SectionView>, p: InputSupport) -> bool {
    &&& flag_follows(document, "enabled"@, p.enabled)
    &&& flag_follows(document, "commit-based"@, p.commit_based)
    &&& flag_follows(document, "advanced"@, p.advanced)
    &&& flag_follows(document, "vowel-count"@, p.vowel_count)
}

#[verifier::spinoff_prover]
proof fn lemma_first_flags(document: Seq<SectionView>)
    ensures
        first_flags_follow(document, parse::support_of(document)),
{
    reveal(first_flags_follow);
    let p = parse::support_of(document);
    lemma_flag(document, "enabled"@, p.enabled);
    lemma_flag(document, "commit-based"@, p.commit_based);
    lemma_flag(document, "advanced"@, p.advanced);
    lemma_flag(document, "vowel-count"@, p.vowel_count);
}

/// Whether the next four flags of assistance are what their keys say.
#[verifier::opaque]
pub open spec fn second_flags_follow(document: Seq<SectionView>, p: InputSupport) -> bool {
    &&& flag_follows(document, "consonant-extra"@, p.consonant_extra)
    &&& flag_follows(document, "n-count"@, p.n_count)
    &&& flag_follows(document, "dakuten-swap"@, p.dakuten_swap)
    &&& flag_follows(document, "tsu-sokuon"@, p.tsu_sokuon)
}

#[verifier::spinoff_prover]
proof fn lemma_second_flags(document: Seq<SectionView>)
    ensures
        second_flags_follow(document, parse::support_of(document)),
{
    reveal(second_flags_follow);
    let p = parse::support_of(document);
    lemma_flag(document, "consonant-extra"@, p.consonant_extra);
    lemma_flag(document, "n-count"@, p.n_count);
    lemma_flag(document, "dakuten-swap"@, p.dakuten_swap);
    lemma_flag(document, "tsu-sokuon"@, p.tsu_sokuon);
}

/// Whether the four flags after them of assistance are what their keys say.
#[verifier::opaque]
pub open spec fn third_flags_follow(document: Seq<SectionView>, p: InputSupport) -> bool {
    &&& flag_follows(document, "wa-wo"@, p.wa_wo)
    &&& flag_follows(document, "small-u"@, p.small_u)
    &&& flag_follows(document, "fuzzy-proper-nouns"@, p.fuzzy_proper_nouns)
    &&& flag_follows(document, "english-to-katakana"@, p.english_to_katakana)
}

#[verifier::spinoff_prover]
proof fn lemma_third_flags(document: Seq<SectionView>)
    ensures
        third_flags_follow(document, parse::support_of(document)),
{
    reveal(third_flags_follow);
    let p = parse::support_of(document);
    lemma_flag(document, "wa-wo"@, p.wa_wo);
    lemma_flag(document, "small-u"@, p.small_u);
    lemma_flag(document, "fuzzy-proper-nouns"@, p.fuzzy_proper_nouns);
    lemma_flag(document, "english-to-katakana"@, p.english_to_katakana);
}

/// Whether the last four flags of assistance are what their keys say.
#[verifier::opaque]
pub open spec fn last_flags_follow(document: Seq<SectionView>, p: InputSupport) -> bool {
    &&& flag_follows(document, "period-after-digit"@, p.period_after_digit)
    &&& flag_follows(document, "comma-after-digit"@, p.comma_after_digit)
    &&& flag_follows(document, "middle-dot-after-digit"@, p.middle_dot_after_digit)
    &&& flag_follows(document, "long-vowel-after-alnum"@, p.long_vowel_after_alnum)
}

#[verifier::spinoff_prover]
proof fn lemma_last_flags(document: Seq<SectionView>)
    ensures
        last_flags_follow(document, parse::support_of(document)),
{
    reveal(last_flags_follow);
    let p = parse::support_of(document);
    lemma_flag(document, "period-after-digit"@, p.period_after_digit);
    lemma_flag(document, "comma-after-digit"@, p.comma_after_digit);
    lemma_flag(document, "middle-dot-after-digit"@, p.middle_dot_after_digit);
    lemma_flag(document, "long-vowel-after-alnum"@, p.long_vowel_after_alnum);
}

/// So is every flag of assistance with typing.
pub proof fn flags_of_assistance_follow_their_keys(document: Seq<SectionView>)
    ensures
        first_flags_follow(document, parse::preferences_of(document).input_support),
        second_flags_follow(document, parse::preferences_of(document).input_support),
        third_flags_follow(document, parse::preferences_of(document).input_support),
        last_flags_follow(document, parse::preferences_of(document).input_support),
{
    lemma_support(document);
    lemma_first_flags(document);
    lemma_second_flags(document);
    lemma_third_flags(document);
    lemma_last_flags(document);
}

/// The local model has the scope that its key says. It is left at its default only where
/// the key is missing: it is off where the key says anything that is not known.
pub proof fn the_local_model_is_off_unless_asked_for(
    document: Seq<SectionView>,
    section: Seq<char>,
)
    requires
        is_input_section(document, section),
    ensures
        ({
            let scope = parse::preferences_of(document).neural_reranker_scope;
            match config::value_at(document, section, "neural-reranker-scope"@) {
                Some(ValueView::Text(name)) => follows(
                    Some(name),
                    neural_reranker_scope_names(),
                    NeuralRerankerScope::Off,
                    scope,
                ),
                Some(ValueView::List(_)) => scope == NeuralRerankerScope::Off,
                None => scope == NeuralRerankerScope::LongTextOnly,
            }
        }),
{
    let scope = parse::preferences_of(document).neural_reranker_scope;
    if let Some(ValueView::Text(name)) = config::value_at(
        document,
        section,
        "neural-reranker-scope"@,
    ) {
        lemma_neural_reranker_scope(Some(name), NeuralRerankerScope::Off, scope);
    }
}

// ---------------------------------------------------------------------------
// Profiles.

/// Whether two characters are the same but for the case of ASCII letters.
pub open spec fn same_letter(a: char, b: char) -> bool {
    ||| a == b
    ||| 'A' <= a && a <= 'Z' && b as int == a as int + 32
    ||| 'A' <= b && b <= 'Z' && a as int == b as int + 32
}

/// Whether two names are the same, letter by letter, but for the case of ASCII letters.
pub open spec fn same_letters(a: Seq<char>, b: Seq<char>) -> bool {
    &&& a.len() == b.len()
    &&& forall|i: int| 0 <= i < a.len() ==> same_letter(#[trigger] a[i], b[i])
}

proof fn lemma_letters(a: Seq<char>, b: Seq<char>)
    ensures
        profiles::same_name(a, b) == same_letters(a, b),
{
    if profiles::same_name(a, b) {
        assert forall|i: int| 0 <= i < a.len() implies same_letter(#[trigger] a[i], b[i]) by {
            lemma_letter(a[i], b[i]);
        }
    }
    if same_letters(a, b) {
        assert forall|i: int| 0 <= i < a.len() implies kana::lower(#[trigger] a[i]) == kana::lower(
            b[i],
        ) by {
            lemma_letter(a[i], b[i]);
        }
    }
}

proof fn lemma_letter(a: char, b: char)
    ensures
        (kana::lower(a) == kana::lower(b)) == same_letter(a, b),
{
    lemma_lower(a);
    lemma_lower(b);
    if kana::lower(a) as int == kana::lower(b) as int {
        assert((kana::lower(a) as u32) as char == (kana::lower(b) as u32) as char);
        if a as int == b as int {
            assert((a as u32) as char == (b as u32) as char);
        }
    }
}

proof fn lemma_lower(c: char)
    ensures
        kana::lower(c) as int == if 'A' <= c && c <= 'Z' {
            c as int + 32
        } else {
            c as int
        },
{
}

proof fn lemma_first(all: Seq<ProfileView>, name: Seq<char>, i: int, k: int)
    requires
        0 <= i <= k < all.len(),
        same_letters(all[k].process_name, name),
        forall|j: int| i <= j < k ==> !same_letters((#[trigger] all[j]).process_name, name),
    ensures
        profiles::profile_for(all, name, i) == Some(k),
    decreases k - i,
{
    lemma_letters(all[i].process_name, name);
    if i < k {
        lemma_first(all, name, i + 1, k);
    }
}

proof fn lemma_no_profile(all: Seq<ProfileView>, name: Seq<char>, i: int)
    requires
        0 <= i <= all.len(),
        forall|j: int| i <= j < all.len() ==> !same_letters((#[trigger] all[j]).process_name, name),
    ensures
        profiles::profile_for(all, name, i) is None,
    decreases all.len() - i,
{
    if i < all.len() {
        lemma_letters(all[i].process_name, name);
        lemma_no_profile(all, name, i + 1);
    }
}

/// A new context of an application starts in the mode, with the looks of text, the
/// prediction and the key to take it that the first profile for the application says.
/// Everything else is what the preferences say.
pub proof fn the_first_profile_wins(
    p: Preferences,
    all: Seq<ProfileView>,
    name: Seq<char>,
    k: int,
)
    requires
        0 <= k < all.len(),
        same_letters(all[k].process_name, name),
        forall|j: int| 0 <= j < k ==> !same_letters((#[trigger] all[j]).process_name, name),
    ensures
        ({
            let context = profiles::context_for(p, all, name);
            &&& context.default_mode == all[k].default_mode
            &&& context.normalizer == all[k].normalizer
            &&& context.prediction_enabled == all[k].prediction_enabled
            &&& context.suggest_accept == all[k].suggest_accept
            &&& context.input_method == p.input_method
            &&& context.conversion_method == p.conversion_method
            &&& context.space_width == p.space_width
            &&& context.shift_space_behavior == p.shift_space_behavior
            &&& context.association_enabled == p.association_enabled
            &&& context.input_support == p.input_support
        }),
{
    lemma_first(all, name, 0, k);
}

/// A new context of an application without a profile starts with what the preferences
/// say.
pub proof fn others_start_with_the_preferences(
    p: Preferences,
    all: Seq<ProfileView>,
    name: Seq<char>,
)
    requires
        forall|j: int| 0 <= j < all.len() ==> !same_letters((#[trigger] all[j]).process_name, name),
    ensures
        ({
            let context = profiles::context_for(p, all, name);
            &&& context.default_mode == p.default_mode
            &&& context.normalizer == p.normalizer
            &&& context.prediction_enabled == p.prediction_enabled
            &&& context.suggest_accept == p.suggest_accept
            &&& context.input_method == p.input_method
            &&& context.conversion_method == p.conversion_method
            &&& context.space_width == p.space_width
            &&& context.shift_space_behavior == p.shift_space_behavior
            &&& context.association_enabled == p.association_enabled
            &&& context.input_support == p.input_support
        }),
{
    lemma_no_profile(all, name, 0);
}

/// A terminal and two editors start with the input method off, and their Tab key is left
/// to them, whatever the preferences are and whatever the case of their names.
pub proof fn shipped_profiles_leave_tab_alone(p: Preferences, name: Seq<char>)
    requires
        same_letters("WindowsTerminal.exe"@, name) || same_letters("Code.exe"@, name)
            || same_letters("devenv.exe"@, name),
    ensures
        ({
            let context = profiles::context_for(p, profiles::shipped(p), name);
            &&& context.default_mode == Mode::Direct
            &&& !context.prediction_enabled
            &&& context.suggest_accept == SuggestAccept::Disabled
            &&& context.normalizer == p.normalizer
        }),
{
    reveal_strlit("WindowsTerminal.exe");
    reveal_strlit("Code.exe");
    reveal_strlit("devenv.exe");
    let all = profiles::shipped(p);
    assert(all[0].process_name == "WindowsTerminal.exe"@ && "WindowsTerminal.exe"@.len() == 19);
    assert(all[1].process_name == "Code.exe"@ && "Code.exe"@.len() == 8);
    assert(all[2].process_name == "devenv.exe"@ && "devenv.exe"@.len() == 10);
    if same_letters("WindowsTerminal.exe"@, name) {
        lemma_first(all, name, 0, 0);
    } else if same_letters("Code.exe"@, name) {
        lemma_first(all, name, 0, 1);
    } else {
        lemma_first(all, name, 0, 2);
    }
}

/// Whether a section is for an executable: it is called `profile.` with the name behind,
/// which is not empty, has no more than a hundred and twenty-eight characters, and is made
/// of ASCII letters, digits, full stops, low lines and hyphens.
pub open spec fn is_profile_of(section: Seq<char>, name: Seq<char>) -> bool {
    &&& section == "profile."@ + name
    &&& 1 <= name.len() <= 128
    &&& forall|i: int|
        0 <= i < name.len() ==> ({
            let c = #[trigger] name[i];
            ||| 'a' <= c && c <= 'z'
            ||| 'A' <= c && c <= 'Z'
            ||| '0' <= c && c <= '9'
            ||| c == '.'
            ||| c == '_'
            ||| c == '-'
        })
}

/// A section is for an executable where it is called so, and for no other.
pub proof fn sections_are_for_the_executable_they_name(section: Seq<char>, name: Seq<char>)
    ensures
        (parse::profiled(section) == Some(name)) == is_profile_of(section, name),
{
    reveal_strlit("profile.");
    let prefix = "profile."@;
    assert((prefix + name).take(prefix.len() as int) =~= prefix);
    assert((prefix + name).skip(prefix.len() as int) =~= name);
    if parse::profiled(section) == Some(name) {
        assert(section =~= section.take(prefix.len() as int) + section.skip(prefix.len() as int));
    }
}

/// What a profile says once a section has been read: what the keys of the section say,
/// and for the rest what it said before.
pub open spec fn profile_follows(
    document: Seq<SectionView>,
    section: Seq<char>,
    before: ProfileView,
    after: ProfileView,
) -> bool {
    &&& follows(
        config::text_at(document, section, "default-mode"@),
        mode_names(),
        before.default_mode,
        after.default_mode,
    )
    &&& follows(
        config::text_at(document, section, "alnum"@),
        width_names(),
        before.normalizer.width.alnum,
        after.normalizer.width.alnum,
    )
    &&& follows(
        config::text_at(document, section, "number"@),
        width_names(),
        before.normalizer.width.number,
        after.normalizer.width.number,
    )
    &&& follows(
        config::text_at(document, section, "symbol"@),
        width_names(),
        before.normalizer.width.symbol,
        after.normalizer.width.symbol,
    )
    &&& follows(
        config::text_at(document, section, "brackets"@),
        bracket_style_names(),
        before.normalizer.brackets,
        after.normalizer.brackets,
    )
    &&& follows(
        parse::either(
            config::text_at(document, section, "prediction-enabled"@),
            config::text_at(document, section, "suggest-enabled"@),
        ),
        bool_names(),
        before.prediction_enabled,
        after.prediction_enabled,
    )
    &&& follows(
        config::text_at(document, section, "suggest-accept"@),
        suggest_accept_names(),
        before.suggest_accept,
        after.suggest_accept,
    )
    &&& config::text_at(document, section, "punctuation"@) is None
        ==> after.normalizer.punctuation == before.normalizer.punctuation
}

proof fn lemma_overridden(
    before: ProfileView,
    document: Seq<SectionView>,
    section: Seq<char>,
    name: Seq<char>,
)
    ensures
        profile_follows(
            document,
            section,
            before,
            parse::overridden(before, document, section, name),
        ),
{
    let after = parse::overridden(before, document, section, name);
    lemma_mode(
        config::text_at(document, section, "default-mode"@),
        before.default_mode,
        after.default_mode,
    );
    lemma_width(
        config::text_at(document, section, "alnum"@),
        before.normalizer.width.alnum,
        after.normalizer.width.alnum,
    );
    lemma_width(
        config::text_at(document, section, "number"@),
        before.normalizer.width.number,
        after.normalizer.width.number,
    );
    lemma_width(
        config::text_at(document, section, "symbol"@),
        before.normalizer.width.symbol,
        after.normalizer.width.symbol,
    );
    lemma_bracket_style(
        config::text_at(document, section, "brackets"@),
        before.normalizer.brackets,
        after.normalizer.brackets,
    );
    lemma_bool(
        parse::either(
            config::text_at(document, section, "prediction-enabled"@),
            config::text_at(document, section, "suggest-enabled"@),
        ),
        before.prediction_enabled,
        after.prediction_enabled,
    );
    lemma_suggest_accept(
        config::text_at(document, section, "suggest-accept"@),
        before.suggest_accept,
        after.suggest_accept,
    );
}

/// Whether no section but the one at `at` is for an executable.
pub open spec fn only_section(document: Seq<SectionView>, at: int, name: Seq<char>) -> bool {
    forall|j: int, other: Seq<char>|
        0 <= j < document.len() && j != at && #[trigger] is_profile_of(document[j].name, other)
            ==> !same_letters(other, name)
}

/// The profile for an executable that no section has been for is as it was.
proof fn lemma_untouched(
    before: Seq<ProfileView>,
    document: Seq<SectionView>,
    p: Preferences,
    j: int,
    name: Seq<char>,
)
    requires
        complete(before),
        forall|other: Seq<char>| #[trigger]
            is_profile_of(document[j].name, other) ==> !same_letters(other, name),
    ensures
        ({
            let after = parse::with_section(before, document, document[j].name, p);
            match profiles::profile_for(before, name, 0) {
                Some(k) => 0 <= k < before.len() <= after.len() && profiles::profile_for(
                    after,
                    name,
                    0,
                ) == Some(k) && after[k] == before[k],
                None => profiles::profile_for(after, name, 0) is None,
            }
        }),
{
    let after = parse::with_section(before, document, document[j].name, p);
    lemma_profile_for(before, name, 0);
    if let Some(other) = parse::profiled(document[j].name) {
        sections_are_for_the_executable_they_name(document[j].name, other);
        lemma_letters(other, name);
        lemma_profile_for(before, other, 0);
        lemma_profile_for(after, name, 0);
        let found = profiles::profile_for(before, other, 0);
        assert forall|i: int| 0 <= i < before.len() implies profiles::same_name(
            (#[trigger] after[i]).process_name,
            name,
        ) == profiles::same_name(before[i].process_name, name) by {
            if found == Some(i) {
                lemma_same_name(other, before[i].process_name, name);
                lemma_same_name(before[i].process_name, other, name);
            }
        }
        if let Some(k) = profiles::profile_for(before, name, 0) {
            assert(profiles::same_name(after[k].process_name, name));
            if found == Some(k) {
                lemma_same_name(other, before[k].process_name, name);
                lemma_same_name(before[k].process_name, other, name);
            }
            assert(after[k] == before[k]);
        } else if after.len() > before.len() {
            assert(after[before.len() as int].process_name == other);
        }
    }
}

/// What holds of the profile for an executable after the first `n` sections.
spec fn so_far(
    document: Seq<SectionView>,
    p: Preferences,
    at: int,
    name: Seq<char>,
    n: int,
) -> bool {
    let shipped = profiles::shipped(p);
    let all = parse::profiles_from(document, p, n);
    let start = match profiles::profile_for(shipped, name, 0) {
        Some(k) => shipped[k],
        None => profiles::inherited(name, p),
    };
    if n <= at {
        match profiles::profile_for(shipped, name, 0) {
            Some(k) => profiles::profile_for(all, name, 0) == Some(k) && 0 <= k < all.len()
                && all[k] == start,
            None => profiles::profile_for(all, name, 0) is None,
        }
    } else {
        profiles::profile_for(all, name, 0) matches Some(k) && 0 <= k < all.len() && all[k]
            == parse::overridden(start, document, document[at].name, name)
    }
}

proof fn lemma_so_far(
    document: Seq<SectionView>,
    p: Preferences,
    at: int,
    name: Seq<char>,
    n: int,
)
    requires
        0 <= at < document.len(),
        0 <= n <= document.len(),
        is_profile_of(document[at].name, name),
        only_section(document, at, name),
    ensures
        so_far(document, p, at, name, n),
    decreases n,
{
    let shipped = profiles::shipped(p);
    lemma_profile_for(shipped, name, 0);
    if n > 0 {
        lemma_so_far(document, p, at, name, n - 1);
        lemma_profiles_complete(document, p, n - 1);
        let before = parse::profiles_from(document, p, n - 1);
        if n - 1 == at {
            sections_are_for_the_executable_they_name(document[at].name, name);
            lemma_profile_for(before, name, 0);
            let after = parse::profiles_from(document, p, n);
            lemma_same_name(name, name, name);
            match profiles::profile_for(before, name, 0) {
                Some(k) => {
                    assert(forall|i: int| 0 <= i < k ==> #[trigger] after[i] == before[i]);
                    lemma_letters(name, name);
                    lemma_profile_for(after, name, 0);
                    assert(after[k].process_name == name);
                },
                None => {
                    assert(forall|i: int|
                        0 <= i < before.len() ==> #[trigger] after[i] == before[i]);
                    lemma_profile_for(after, name, 0);
                    assert(after[before.len() as int].process_name == name);
                },
            }
        } else {
            lemma_untouched(before, document, p, n - 1, name);
        }
    }
}

/// An executable with a section of its own has a profile that says what the keys of the
/// section say. For the rest it says what the shipped profile for the executable says,
/// or what the preferences say where none is shipped.
pub proof fn profiles_follow_their_sections(document: Seq<SectionView>, at: int, name: Seq<char>)
    requires
        0 <= at < document.len(),
        is_profile_of(document[at].name, name),
        only_section(document, at, name),
    ensures
        ({
            let p = parse::preferences_of(document);
            let before = profiles::context_for(p, profiles::shipped(p), name);
            let after = profiles::context_for(p, parse::profiles_of(document), name);
            profile_follows(
                document,
                document[at].name,
                ProfileView {
                    process_name: name,
                    default_mode: before.default_mode,
                    normalizer: before.normalizer,
                    prediction_enabled: before.prediction_enabled,
                    suggest_accept: before.suggest_accept,
                },
                ProfileView {
                    process_name: name,
                    default_mode: after.default_mode,
                    normalizer: after.normalizer,
                    prediction_enabled: after.prediction_enabled,
                    suggest_accept: after.suggest_accept,
                },
            )
        }),
{
    let p = parse::preferences_of(document);
    let shipped = profiles::shipped(p);
    lemma_so_far(document, p, at, name, document.len() as int);
    let start = match profiles::profile_for(shipped, name, 0) {
        Some(k) => shipped[k],
        None => profiles::inherited(name, p),
    };
    lemma_overridden(start, document, document[at].name, name);
}

/// An executable without a section has the profile that is shipped for it, or none.
pub proof fn profiles_without_a_section_stay(document: Seq<SectionView>, name: Seq<char>)
    requires
        only_section(document, -1, name),
    ensures
        ({
            let p = parse::preferences_of(document);
            profiles::context_for(p, parse::profiles_of(document), name) == profiles::context_for(
                p,
                profiles::shipped(p),
                name,
            )
        }),
{
    let p = parse::preferences_of(document);
    lemma_profile_for(profiles::shipped(p), name, 0);
    lemma_stays(document, p, name, document.len() as int);
}

proof fn lemma_stays(document: Seq<SectionView>, p: Preferences, name: Seq<char>, n: int)
    requires
        0 <= n <= document.len(),
        only_section(document, -1, name),
    ensures
        ({
            let all = parse::profiles_from(document, p, n);
            let shipped = profiles::shipped(p);
            match profiles::profile_for(shipped, name, 0) {
                Some(k) => 0 <= k < shipped.len() && profiles::profile_for(all, name, 0) == Some(k)
                    && 0 <= k < all.len() && all[k] == shipped[k],
                None => profiles::profile_for(all, name, 0) is None,
            }
        }),
    decreases n,
{
    lemma_profile_for(profiles::shipped(p), name, 0);
    if n > 0 {
        lemma_stays(document, p, name, n - 1);
        lemma_profiles_complete(document, p, n - 1);
        lemma_untouched(parse::profiles_from(document, p, n - 1), document, p, n - 1, name);
    }
}

// ---------------------------------------------------------------------------
// Spaces.

/// The space is as wide as what is typed, unless a width is set: it is narrow where the
/// mode is one of narrow letters, or the input method is off.
pub proof fn spaces_are_as_wide_as_the_input(mode: Mode)
    ensures
        SpaceWidth::SameAsInput.full_in(mode) == (mode == Mode::Hiragana || mode == Mode::Katakana
            || mode == Mode::HalfKatakana || mode == Mode::FullAlnum),
        SpaceWidth::Full.full_in(mode),
        !SpaceWidth::Half.full_in(mode),
{
}

/// With Shift the space has the other width, unless a width is set for it.
pub proof fn shift_gives_the_other_space(full: bool)
    ensures
        ShiftSpaceBehavior::Opposite.full_for(full) == !full,
        ShiftSpaceBehavior::Full.full_for(full),
        !ShiftSpaceBehavior::Half.full_for(full),
{
}

} // verus!
