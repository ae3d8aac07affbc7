//! The preferences of the user.
//!
//! They are kept in the configuration language, with a number for the version of
//! the format. What is missing or not known is left at its default, so that a
//! document of a newer version can be read too.

pub mod laws;
pub mod model;
pub mod parse;
pub mod profiles;
pub mod serialize;
pub mod setting_laws;
pub mod support;
pub mod support_laws;

pub use model::{
    ConversionMethod, InputMethod, NeuralRerankerScope, NotationStyle, Preferences,
    ShiftSpaceBehavior, SpaceWidth, SuggestAccept,
};
pub use parse::{parse_preferences, ParsedPreferences};
pub use profiles::{
    default_app_profiles, is_valid_profile_process_name, resolve_context_preferences, AppProfile,
    ContextPreferences,
};
pub use serialize::{serialize_preferences, serialize_preferences_with_profiles};
pub use support::InputSupport;

use vstd::prelude::*;

verus! {

/// The version of the format that is written.
pub const CONFIG_FORMAT_VERSION: u16 = 4;

/// The version of the format before that.
pub const PREVIOUS_CONFIG_FORMAT_VERSION: u16 = 3;

/// The first version, which has the settings of input in the section `settings`. A
/// document that says no version is taken for one of this version.
pub const LEGACY_CONFIG_FORMAT_VERSION: u16 = 1;

} // verus!
