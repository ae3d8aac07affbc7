//! The core of a Japanese input method: what it does with keys and text, with no
//! machine and no window in it.
//!
//! - [`cpu`]: the vector instructions that a machine has.
//! - [`simd`]: the text that a width policy leaves alone, found a block at a time.
//! - [`text`]: the sinks that everything is written into.
//! - [`numerals`]: readings of numbers, and the ways to write them.
//! - [`config`] and [`config_text`]: the language of configuration documents.
//! - [`dictionary`]: lookups in a compiled dictionary image.
//! - [`romaji`]: romaji, key by key, into kana.
//! - [`width`] and [`settings`]: widths, punctuation and other named settings.
//! - [`keys`] and [`keymap`]: keys, and what they do.
//! - [`input_repair`]: slips of the fingers, and what they may have meant.
//! - [`editing`]: ways to write a segment.
//! - [`conversion`]: candidates that no dictionary entry gives.
//! - [`preferences`]: what the user has set.

pub mod config;
pub mod config_laws;
pub mod config_text;
pub mod conversion;
pub mod cpu;
pub mod dictionary;
pub mod editing;
pub mod editing_laws;
pub mod input_repair;
pub mod keymap;
pub mod keys;
pub mod numeral_laws;
pub mod numerals;
pub mod preferences;
pub mod prefix_laws;
pub mod romaji;
pub mod settings;
pub mod simd;
pub mod spoken_laws;
pub mod strings;
pub mod text;
pub mod values;
pub mod width;
pub mod width_laws;

pub use config::ParseError;
pub use conversion::{ConversionCandidate, ConversionError, ConversionSegment, Converter};
pub use dictionary::{Dictionary, EntryFlags};
pub use editing::{transform_into, SegmentTransform};
pub use input_repair::{
    allows_system_entry, collect_repair_variants, contextual_punctuation_swap, RepairKind,
    MAX_PREDICTION_REPAIR_VARIANTS, MAX_REPAIR_VARIANTS,
};
pub use keymap::{KeyMap, Preset};
pub use preferences::{
    default_app_profiles, is_valid_profile_process_name, parse_preferences,
    resolve_context_preferences, serialize_preferences_with_profiles, AppProfile,
    ContextPreferences, ConversionMethod, InputMethod, InputSupport, NeuralRerankerScope,
    NotationStyle, Preferences, ShiftSpaceBehavior, SpaceWidth, SuggestAccept,
    CONFIG_FORMAT_VERSION,
};
pub use romaji::Input;
pub use settings::{AppearanceTheme, PadShortcut};
pub use text::TextSink;
pub use width::{BracketStyle, CommaMark, Normalizer, PeriodMark, PunctuationStyle, Width};
