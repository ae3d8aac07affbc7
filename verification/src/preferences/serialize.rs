//! Writing preferences.

use super::model::Preferences;
use super::profiles;
use super::profiles::{
    default_app_profiles, is_valid_profile_process_name, AppProfile, ProfileView,
};
use crate::config::SectionView;
use crate::config_text;
use crate::config_text::Writer;
use crate::settings::Mode;
use crate::width::PunctuationStyle;
use vstd::prelude::*;

verus! {

/// The name of a truth value.
#[verifier::opaque]
pub open spec fn bool_name_of(value: bool) -> Seq<char> {
    if value {
        "true"@
    } else {
        "false"@
    }
}

/// The name of a truth value.
fn bool_name(value: bool) -> (s: &'static str)
    ensures
        s@ == bool_name_of(value),
{
    proof {
        reveal(bool_name_of);
    }
    if value {
        "true"
    } else {
        "false"
    }
}

/// The name of a mode.
pub fn mode_name(value: Mode) -> (s: &'static str)
    ensures
        s@ == value.name_of(),
{
    value.name()
}

/// The name of a style of punctuation.
pub fn punctuation_name(value: PunctuationStyle) -> (s: &'static str)
    ensures
        s@ == value.name_of(),
{
    value.name()
}

/// The section with the version of the format.
pub open spec fn meta_section() -> SectionView {
    SectionView { name: "meta"@, entries: seq![config_text::text_entry("format-version"@, "4"@)] }
}

/// The settings of input.
pub open spec fn input_section_of(p: Preferences) -> SectionView {
    SectionView {
        name: "input"@,
        entries: seq![
            config_text::text_entry("keymap-preset"@, p.keymap_preset.name_of()),
            config_text::text_entry("input-method"@, p.input_method.name_of()),
            config_text::text_entry("conversion-method"@, p.conversion_method.name_of()),
            config_text::text_entry("default-mode"@, p.default_mode.name_of()),
            config_text::text_entry("prediction-enabled"@, bool_name_of(p.prediction_enabled)),
            config_text::text_entry("suggest-accept"@, p.suggest_accept.name_of()),
            config_text::text_entry("association-enabled"@, bool_name_of(p.association_enabled)),
            config_text::text_entry("neural-reranker-scope"@, p.neural_reranker_scope.name_of()),
            config_text::text_entry("developer-mode"@, bool_name_of(p.developer_mode)),
            config_text::text_entry("space-width"@, p.space_width.name_of()),
            config_text::text_entry("shift-space"@, p.shift_space_behavior.name_of()),
            config_text::text_entry("pad-shortcut"@, p.pad_shortcut.name_of()),
        ],
    }
}

/// The settings of assistance with typing.
pub open spec fn support_section_of(p: Preferences) -> SectionView {
    SectionView {
        name: "input-support"@,
        entries: seq![
            config_text::text_entry("enabled"@, bool_name_of(p.input_support.enabled)),
            config_text::text_entry("commit-based"@, bool_name_of(p.input_support.commit_based)),
            config_text::text_entry("advanced"@, bool_name_of(p.input_support.advanced)),
            config_text::text_entry("vowel-count"@, bool_name_of(p.input_support.vowel_count)),
            config_text::text_entry("consonant-extra"@, bool_name_of(p.input_support.consonant_extra)),
            config_text::text_entry("n-count"@, bool_name_of(p.input_support.n_count)),
            config_text::text_entry("dakuten-swap"@, bool_name_of(p.input_support.dakuten_swap)),
            config_text::text_entry("tsu-sokuon"@, bool_name_of(p.input_support.tsu_sokuon)),
            config_text::text_entry("wa-wo"@, bool_name_of(p.input_support.wa_wo)),
            config_text::text_entry("small-u"@, bool_name_of(p.input_support.small_u)),
            config_text::text_entry("fuzzy-proper-nouns"@, bool_name_of(p.input_support.fuzzy_proper_nouns)),
            config_text::text_entry("english-to-katakana"@, bool_name_of(p.input_support.english_to_katakana)),
            config_text::text_entry("period-after-digit"@, bool_name_of(p.input_support.period_after_digit)),
            config_text::text_entry("comma-after-digit"@, bool_name_of(p.input_support.comma_after_digit)),
            config_text::text_entry("middle-dot-after-digit"@, bool_name_of(p.input_support.middle_dot_after_digit)),
            config_text::text_entry("long-vowel-after-alnum"@, bool_name_of(p.input_support.long_vowel_after_alnum)),
        ],
    }
}

/// The settings of the windows.
pub open spec fn appearance_section_of(p: Preferences) -> SectionView {
    SectionView {
        name: "appearance"@,
        entries: seq![
            config_text::text_entry("theme"@, p.appearance_theme.name_of()),
        ],
    }
}

/// The settings of how text looks.
pub open spec fn width_section_of(p: Preferences) -> SectionView {
    SectionView {
        name: "width"@,
        entries: seq![
            config_text::text_entry("alnum"@, p.normalizer.width.alnum.name_of()),
            config_text::text_entry("number"@, p.normalizer.width.number.name_of()),
            config_text::text_entry("symbol"@, p.normalizer.width.symbol.name_of()),
            config_text::text_entry("punctuation"@, p.normalizer.punctuation.name_of()),
            config_text::text_entry("brackets"@, p.normalizer.brackets.name_of()),
        ],
    }
}

/// The section of a profile.
pub open spec fn profile_section_of(p: ProfileView) -> SectionView {
    SectionView {
        name: "profile."@ + p.process_name,
        entries: seq![
            config_text::text_entry("default-mode"@, p.default_mode.name_of()),
            config_text::text_entry("prediction-enabled"@, bool_name_of(p.prediction_enabled)),
            config_text::text_entry("suggest-accept"@, p.suggest_accept.name_of()),
            config_text::text_entry("alnum"@, p.normalizer.width.alnum.name_of()),
            config_text::text_entry("number"@, p.normalizer.width.number.name_of()),
            config_text::text_entry("symbol"@, p.normalizer.width.symbol.name_of()),
            config_text::text_entry("punctuation"@, p.normalizer.punctuation.name_of()),
            config_text::text_entry("brackets"@, p.normalizer.brackets.name_of()),
        ],
    }
}

/// The sections of the preferences.
pub open spec fn preference_sections(p: Preferences) -> Seq<SectionView> {
    seq![
        meta_section(),
        input_section_of(p),
        support_section_of(p),
        appearance_section_of(p),
        width_section_of(p),
    ]
}

/// The sections of the first `n` profiles. A profile for what cannot be the name of
/// an executable is left out.
pub open spec fn profile_sections(all: Seq<ProfileView>, n: int) -> Seq<SectionView>
    decreases n,
{
    if n <= 0 {
        Seq::empty()
    } else {
        let before = profile_sections(all, n - 1);
        if profiles::valid_process_name(all[n - 1].process_name) {
            before.push(profile_section_of(all[n - 1]))
        } else {
            before
        }
    }
}

/// The document of preferences and profiles.
pub open spec fn written(p: Preferences, all: Seq<ProfileView>) -> Seq<SectionView> {
    preference_sections(p) + profile_sections(all, all.len() as int)
}

/// The settings of input.
fn write_input(w: &mut Writer, p: Preferences)
    requires
        old(w).wf(),
    ensures
        final(w).wf(),
        final(w)@ == old(w)@.push(input_section_of(p)),
{
    let entries: [(&str, &str); 12] = [
        ("keymap-preset", p.keymap_preset.name()),
        ("input-method", p.input_method.name()),
        ("conversion-method", p.conversion_method.name()),
        ("default-mode", p.default_mode.name()),
        ("prediction-enabled", bool_name(p.prediction_enabled)),
        ("suggest-accept", p.suggest_accept.name()),
        ("association-enabled", bool_name(p.association_enabled)),
        ("neural-reranker-scope", p.neural_reranker_scope.name()),
        ("developer-mode", bool_name(p.developer_mode)),
        ("space-width", p.space_width.name()),
        ("shift-space", p.shift_space_behavior.name()),
        ("pad-shortcut", p.pad_shortcut.name()),
    ];
    assert(config_text::text_entries(entries@) =~= input_section_of(p).entries);
    w.write("input", &entries);
}

/// The settings of assistance with typing.
fn write_support(w: &mut Writer, p: Preferences)
    requires
        old(w).wf(),
    ensures
        final(w).wf(),
        final(w)@ == old(w)@.push(support_section_of(p)),
{
    let entries: [(&str, &str); 16] = [
        ("enabled", bool_name(p.input_support.enabled)),
        ("commit-based", bool_name(p.input_support.commit_based)),
        ("advanced", bool_name(p.input_support.advanced)),
        ("vowel-count", bool_name(p.input_support.vowel_count)),
        ("consonant-extra", bool_name(p.input_support.consonant_extra)),
        ("n-count", bool_name(p.input_support.n_count)),
        ("dakuten-swap", bool_name(p.input_support.dakuten_swap)),
        ("tsu-sokuon", bool_name(p.input_support.tsu_sokuon)),
        ("wa-wo", bool_name(p.input_support.wa_wo)),
        ("small-u", bool_name(p.input_support.small_u)),
        ("fuzzy-proper-nouns", bool_name(p.input_support.fuzzy_proper_nouns)),
        ("english-to-katakana", bool_name(p.input_support.english_to_katakana)),
        ("period-after-digit", bool_name(p.input_support.period_after_digit)),
        ("comma-after-digit", bool_name(p.input_support.comma_after_digit)),
        ("middle-dot-after-digit", bool_name(p.input_support.middle_dot_after_digit)),
        ("long-vowel-after-alnum", bool_name(p.input_support.long_vowel_after_alnum)),
    ];
    assert(config_text::text_entries(entries@) =~= support_section_of(p).entries);
    w.write("input-support", &entries);
}

/// The settings of the windows.
fn write_appearance(w: &mut Writer, p: Preferences)
    requires
        old(w).wf(),
    ensures
        final(w).wf(),
        final(w)@ == old(w)@.push(appearance_section_of(p)),
{
    let entries: [(&str, &str); 1] = [
        ("theme", p.appearance_theme.name()),
    ];
    assert(config_text::text_entries(entries@) =~= appearance_section_of(p).entries);
    w.write("appearance", &entries);
}

/// The settings of how text looks.
fn write_width(w: &mut Writer, p: Preferences)
    requires
        old(w).wf(),
    ensures
        final(w).wf(),
        final(w)@ == old(w)@.push(width_section_of(p)),
{
    let entries: [(&str, &str); 5] = [
        ("alnum", p.normalizer.width.alnum.name()),
        ("number", p.normalizer.width.number.name()),
        ("symbol", p.normalizer.width.symbol.name()),
        ("punctuation", p.normalizer.punctuation.name()),
        ("brackets", p.normalizer.brackets.name()),
    ];
    assert(config_text::text_entries(entries@) =~= width_section_of(p).entries);
    w.write("width", &entries);
}

/// The section of a profile.
fn write_profile(w: &mut Writer, p: &AppProfile)
    requires
        old(w).wf(),
    ensures
        final(w).wf(),
        final(w)@ == old(w)@.push(profile_section_of(p@)),
{
    let mut name = "profile.".to_owned();
    name.append(p.process_name.as_str());
    let entries: [(&str, &str); 8] = [
        ("default-mode", p.default_mode.name()),
        ("prediction-enabled", bool_name(p.prediction_enabled)),
        ("suggest-accept", p.suggest_accept.name()),
        ("alnum", p.normalizer.width.alnum.name()),
        ("number", p.normalizer.width.number.name()),
        ("symbol", p.normalizer.width.symbol.name()),
        ("punctuation", p.normalizer.punctuation.name()),
        ("brackets", p.normalizer.brackets.name()),
    ];
    assert(config_text::text_entries(entries@) =~= profile_section_of(p@).entries);
    w.write(name.as_str(), &entries);
}

/// Writes the preferences and the shipped profiles.
pub fn serialize_preferences(preferences: Preferences) -> (r: String)
    ensures
        r@ == config_text::document_text(written(preferences, profiles::shipped(preferences))),
{
    serialize_preferences_with_profiles(preferences, &default_app_profiles(preferences))
}

/// Writes the preferences and profiles.
pub fn serialize_preferences_with_profiles(preferences: Preferences, profiles: &[AppProfile]) -> (r:
    String)
    ensures
        r@ == config_text::document_text(written(preferences, profiles::views(profiles@))),
{
    let mut w: Writer = Writer::new();
    let meta: [(&str, &str); 1] = [("format-version", "4")];
    assert(config_text::text_entries(meta@) =~= meta_section().entries);
    w.write("meta", &meta);
    assert(w@ =~= seq![meta_section()]);
    write_input(&mut w, preferences);
    write_support(&mut w, preferences);
    write_appearance(&mut w, preferences);
    write_width(&mut w, preferences);
    assert(w@ =~= preference_sections(preferences));
    let ghost all = profiles::views(profiles@);
    let mut i: usize = 0;
    assert(w@ =~= preference_sections(preferences) + profile_sections(all, 0));
    while i < profiles.len()
        invariant
            i <= profiles@.len(),
            all == profiles::views(profiles@),
            w.wf(),
            w@ == preference_sections(preferences) + profile_sections(all, i as int),
        decreases profiles@.len() - i,
    {
        assert(all[i as int] == profiles@[i as int]@);
        if is_valid_profile_process_name(profiles[i].process_name.as_str()) {
            write_profile(&mut w, &profiles[i]);
        }
        i = i + 1;
        assert(w@ =~= preference_sections(preferences) + profile_sections(all, i as int));
    }
    w.finish()
}

} // verus!
