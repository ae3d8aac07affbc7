//! Profiles of applications, and the preferences that a new context starts with.

use super::model::{
    ConversionMethod, InputMethod, Preferences, ShiftSpaceBehavior, SpaceWidth, SuggestAccept,
};
use super::support::InputSupport;
use crate::input_repair::kana;
use crate::input_repair::kana::to_lower;
use crate::settings::Mode;
use crate::strings;
use crate::width::Normalizer;
use vstd::prelude::*;

verus! {

/// What a new context of one application starts with.
#[derive(Debug, PartialEq, Eq)]
pub struct AppProfile {
    pub process_name: String,
    pub default_mode: Mode,
    pub normalizer: Normalizer,
    pub prediction_enabled: bool,
    pub suggest_accept: SuggestAccept,
}

/// What a profile says.
pub struct ProfileView {
    pub process_name: Seq<char>,
    pub default_mode: Mode,
    pub normalizer: Normalizer,
    pub prediction_enabled: bool,
    pub suggest_accept: SuggestAccept,
}

impl View for AppProfile {
    type V = ProfileView;

    open spec fn view(&self) -> ProfileView {
        ProfileView {
            process_name: self.process_name@,
            default_mode: self.default_mode,
            normalizer: self.normalizer,
            prediction_enabled: self.prediction_enabled,
            suggest_accept: self.suggest_accept,
        }
    }
}

impl Clone for AppProfile {
    fn clone(&self) -> (r: Self)
        ensures
            r@ == self@,
    {
        AppProfile {
            process_name: self.process_name.clone(),
            default_mode: self.default_mode,
            normalizer: self.normalizer,
            prediction_enabled: self.prediction_enabled,
            suggest_accept: self.suggest_accept,
        }
    }
}

/// What a list of profiles says.
pub open spec fn views(profiles: Seq<AppProfile>) -> Seq<ProfileView> {
    Seq::new(profiles.len(), |i: int| profiles[i]@)
}

/// Whether two texts are the same but for the case of ASCII letters.
pub open spec fn same_name(a: Seq<char>, b: Seq<char>) -> bool {
    a.len() == b.len() && forall|i: int|
        0 <= i < a.len() ==> kana::lower(#[trigger] a[i]) == kana::lower(b[i])
}

/// Whether two texts are the same but for the case of ASCII letters.
fn is_same_name(a: &str, b: &str) -> (r: bool)
    ensures
        r == same_name(a@, b@),
{
    let x: Vec<char> = strings::chars_of(a);
    let y: Vec<char> = strings::chars_of(b);
    if x.len() != y.len() {
        return false;
    }
    let mut i: usize = 0;
    while i < x.len()
        invariant
            i <= x@.len(),
            x@ == a@,
            y@ == b@,
            x@.len() == y@.len(),
            forall|k: int| 0 <= k < i ==> kana::lower(#[trigger] a@[k]) == kana::lower(b@[k]),
        decreases x@.len() - i,
    {
        if to_lower(x[i]) != to_lower(y[i]) {
            assert(kana::lower(a@[i as int]) != kana::lower(b@[i as int]));
            return false;
        }
        i = i + 1;
    }
    true
}

/// A profile that says what the preferences say.
pub open spec fn inherited(process_name: Seq<char>, preferences: Preferences) -> ProfileView {
    ProfileView {
        process_name,
        default_mode: preferences.default_mode,
        normalizer: preferences.normalizer,
        prediction_enabled: preferences.prediction_enabled,
        suggest_accept: preferences.suggest_accept,
    }
}

impl AppProfile {
    /// A profile that says what the preferences say.
    pub fn inherited(process_name: &str, preferences: Preferences) -> (r: Self)
        ensures
            r@ == inherited(process_name@, preferences),
    {
        AppProfile {
            process_name: process_name.to_owned(),
            default_mode: preferences.default_mode,
            normalizer: preferences.normalizer,
            prediction_enabled: preferences.prediction_enabled,
            suggest_accept: preferences.suggest_accept,
        }
    }

    /// Whether the profile is for an executable.
    pub fn matches(&self, process_name: &str) -> (r: bool)
        ensures
            r == same_name(self@.process_name, process_name@),
    {
        is_same_name(self.process_name.as_str(), process_name)
    }
}

/// The values that a new context copies.
#[derive(Debug, Clone, Copy, PartialEq, Eq, Structural)]
pub struct ContextPreferences {
    pub default_mode: Mode,
    pub input_method: InputMethod,
    pub conversion_method: ConversionMethod,
    pub normalizer: Normalizer,
    pub space_width: SpaceWidth,
    pub shift_space_behavior: ShiftSpaceBehavior,
    pub prediction_enabled: bool,
    pub suggest_accept: SuggestAccept,
    pub association_enabled: bool,
    pub input_support: InputSupport,
}

/// A profile for an application whose Tab key belongs to it: the input method is
/// off, and nothing is suggested.
pub open spec fn hands_off(process_name: Seq<char>, preferences: Preferences) -> ProfileView {
    ProfileView {
        process_name,
        default_mode: Mode::Direct,
        normalizer: preferences.normalizer,
        prediction_enabled: false,
        suggest_accept: SuggestAccept::Disabled,
    }
}

/// The shipped profiles.
pub open spec fn shipped(preferences: Preferences) -> Seq<ProfileView> {
    seq![
        hands_off("WindowsTerminal.exe"@, preferences),
        hands_off("Code.exe"@, preferences),
        hands_off("devenv.exe"@, preferences),
    ]
}

/// A profile for an application whose Tab key belongs to it.
fn hands_off_profile(process_name: &str, preferences: Preferences) -> (r: AppProfile)
    ensures
        r@ == hands_off(process_name@, preferences),
{
    let mut profile: AppProfile = AppProfile::inherited(process_name, preferences);
    profile.default_mode = Mode::Direct;
    profile.prediction_enabled = false;
    profile.suggest_accept = SuggestAccept::Disabled;
    profile
}

/// The shipped profiles, for a shell and two editors. They start with the input
/// method off, and leave the Tab key to the application.
pub fn default_app_profiles(preferences: Preferences) -> (r: Vec<AppProfile>)
    ensures
        views(r@) == shipped(preferences),
{
    let mut r: Vec<AppProfile> = Vec::new();
    r.push(hands_off_profile("WindowsTerminal.exe", preferences));
    r.push(hands_off_profile("Code.exe", preferences));
    r.push(hands_off_profile("devenv.exe", preferences));
    assert(views(r@) =~= shipped(preferences));
    r
}

/// The first profile from `i` on that is for an executable.
pub open spec fn profile_for(profiles: Seq<ProfileView>, process_name: Seq<char>, i: int) -> Option<
    int,
>
    decreases profiles.len() - i,
{
    if i < 0 || i >= profiles.len() {
        None
    } else if same_name(profiles[i].process_name, process_name) {
        Some(i)
    } else {
        profile_for(profiles, process_name, i + 1)
    }
}

/// The position of the profile for an executable.
pub fn find_profile(profiles: &[AppProfile], process_name: &str) -> (r: Option<usize>)
    ensures
        match profile_for(views(profiles@), process_name@, 0) {
            Some(k) => r matches Some(i) && i == k && k < profiles@.len(),
            None => r is None,
        },
{
    let mut i: usize = 0;
    while i < profiles.len()
        invariant
            i <= profiles@.len(),
            profile_for(views(profiles@), process_name@, 0) == profile_for(
                views(profiles@),
                process_name@,
                i as int,
            ),
        decreases profiles@.len() - i,
    {
        assert(views(profiles@)[i as int] == profiles@[i as int]@);
        if profiles[i].matches(process_name) {
            return Some(i);
        }
        i = i + 1;
    }
    None
}

/// What a new context starts with: what the profile of its application says, and
/// for the rest what the preferences say.
pub open spec fn context_for(
    preferences: Preferences,
    profiles: Seq<ProfileView>,
    process_name: Seq<char>,
) -> ContextPreferences {
    let profile = match profile_for(profiles, process_name, 0) {
        Some(i) => profiles[i],
        None => inherited(process_name, preferences),
    };
    ContextPreferences {
        default_mode: profile.default_mode,
        input_method: preferences.input_method,
        conversion_method: preferences.conversion_method,
        normalizer: profile.normalizer,
        space_width: preferences.space_width,
        shift_space_behavior: preferences.shift_space_behavior,
        prediction_enabled: profile.prediction_enabled,
        suggest_accept: profile.suggest_accept,
        association_enabled: preferences.association_enabled,
        input_support: preferences.input_support,
    }
}

/// What a new context of an application starts with.
pub fn resolve_context_preferences(
    preferences: Preferences,
    profiles: &[AppProfile],
    process_name: &str,
) -> (r: ContextPreferences)
    ensures
        r == context_for(preferences, views(profiles@), process_name@),
{
    let found: Option<usize> = find_profile(profiles, process_name);
    if let Some(i) = found {
        let profile: &AppProfile = &profiles[i];
        assert(views(profiles@)[i as int] == profile@);
        return ContextPreferences {
            default_mode: profile.default_mode,
            input_method: preferences.input_method,
            conversion_method: preferences.conversion_method,
            normalizer: profile.normalizer,
            space_width: preferences.space_width,
            shift_space_behavior: preferences.shift_space_behavior,
            prediction_enabled: profile.prediction_enabled,
            suggest_accept: profile.suggest_accept,
            association_enabled: preferences.association_enabled,
            input_support: preferences.input_support,
        };
    }
    ContextPreferences {
        default_mode: preferences.default_mode,
        input_method: preferences.input_method,
        conversion_method: preferences.conversion_method,
        normalizer: preferences.normalizer,
        space_width: preferences.space_width,
        shift_space_behavior: preferences.shift_space_behavior,
        prediction_enabled: preferences.prediction_enabled,
        suggest_accept: preferences.suggest_accept,
        association_enabled: preferences.association_enabled,
        input_support: preferences.input_support,
    }
}

/// A character of the name of an executable.
pub open spec fn name_character(c: char) -> bool {
    kana::ascii_letter(c) || kana::ascii_digit(c) || c == '.' || c == '_' || c == '-'
}

/// The longest name that a profile can be for.
pub const MAX_PROCESS_NAME: usize = 128;

/// Whether a profile can be for an executable of that name.
pub open spec fn valid_process_name(name: Seq<char>) -> bool {
    0 < name.len() <= MAX_PROCESS_NAME && forall|i: int|
        0 <= i < name.len() ==> name_character(#[trigger] name[i])
}

/// Whether a profile can be for an executable of that name.
pub fn is_valid_profile_process_name(process_name: &str) -> (r: bool)
    ensures
        r == valid_process_name(process_name@),
{
    let chars: Vec<char> = strings::chars_of(process_name);
    if chars.len() == 0 || chars.len() > MAX_PROCESS_NAME {
        return false;
    }
    let mut i: usize = 0;
    while i < chars.len()
        invariant
            i <= chars@.len() <= MAX_PROCESS_NAME,
            chars@.len() > 0,
            chars@ == process_name@,
            forall|k: int| 0 <= k < i ==> name_character(#[trigger] process_name@[k]),
        decreases chars@.len() - i,
    {
        let c: char = chars[i];
        if !(kana::is_ascii_letter(c) || kana::is_ascii_digit(c) || c == '.' || c == '_' || c
            == '-') {
            assert(!name_character(process_name@[i as int]));
            return false;
        }
        i = i + 1;
    }
    true
}

} // verus!
