//! The preferences: what each setting can be, and what it is at first.

use super::support::InputSupport;
use crate::config_text;
use crate::keymap::Preset;
use crate::settings::{AppearanceTheme, Mode, PadShortcut};
use crate::strings;
use crate::width::{
    BracketStyle, CommaMark, Normalizer, PeriodMark, PunctuationStyle, Width, WidthPolicy,
};
use vstd::prelude::*;

verus! {

/// The key that accepts a suggestion.
#[derive(Debug, Clone, Copy, PartialEq, Eq, Structural)]
pub enum SuggestAccept {
    Tab,
    ShiftEnter,
    Disabled,
}

impl Default for SuggestAccept {
    fn default() -> (r: Self)
        ensures
            r == SuggestAccept::Tab,
    {
        SuggestAccept::Tab
    }
}

impl SuggestAccept {
    /// Every value, in order.
    pub const ALL: [SuggestAccept; 3] = [
        SuggestAccept::Tab,
        SuggestAccept::ShiftEnter,
        SuggestAccept::Disabled,
    ];

    /// The name of the value.
    pub open spec fn name_of(self) -> Seq<char> {
        match self {
            SuggestAccept::Tab => "tab"@,
            SuggestAccept::ShiftEnter => "shift-enter"@,
            SuggestAccept::Disabled => "disabled"@,
        }
    }

    /// The name of the value.
    pub fn name(self) -> (s: &'static str)
        ensures
            s@ == self.name_of(),
    {
        match self {
            SuggestAccept::Tab => "tab",
            SuggestAccept::ShiftEnter => "shift-enter",
            SuggestAccept::Disabled => "disabled",
        }
    }

    /// The value of a name.
    pub open spec fn named(name: Seq<char>) -> Option<SuggestAccept> {
        if name == "tab"@ {
            Some(SuggestAccept::Tab)
        } else if name == "shift-enter"@ {
            Some(SuggestAccept::ShiftEnter)
        } else if name == "disabled"@ {
            Some(SuggestAccept::Disabled)
        } else {
            None
        }
    }

    /// The value of a name.
    pub fn from_name(name: &str) -> (r: Option<Self>)
        ensures
            r == SuggestAccept::named(name@),
    {
        if strings::same_text(name, "tab") {
            Some(SuggestAccept::Tab)
        } else if strings::same_text(name, "shift-enter") {
            Some(SuggestAccept::ShiftEnter)
        } else if strings::same_text(name, "disabled") {
            Some(SuggestAccept::Disabled)
        } else {
            None
        }
    }

    /// Every value is found by its name.
    pub proof fn name_round_trips(self)
        ensures
            SuggestAccept::named(self.name_of()) == Some(self),
            config_text::plain(self.name_of()),
    {
        reveal_strlit("tab");
        reveal_strlit("shift-enter");
        reveal_strlit("disabled");
        assert(strings::signature("tab"@) == 13153344771);
        assert(strings::signature("shift-enter"@) == 15420734667);
        assert(strings::signature("disabled"@) == 13422663944);
    }
}

/// How kana are typed.
#[derive(Debug, Clone, Copy, PartialEq, Eq, Structural)]
pub enum InputMethod {
    /// As romaji.
    Romaji,
    /// As the kana of the keyboard layout.
    Kana,
}

impl Default for InputMethod {
    fn default() -> (r: Self)
        ensures
            r == InputMethod::Romaji,
    {
        InputMethod::Romaji
    }
}

impl InputMethod {
    /// Every value, in order.
    pub const ALL: [InputMethod; 2] = [InputMethod::Romaji, InputMethod::Kana];

    /// The name of the value.
    pub open spec fn name_of(self) -> Seq<char> {
        match self {
            InputMethod::Romaji => "romaji"@,
            InputMethod::Kana => "kana"@,
        }
    }

    /// The name of the value.
    pub fn name(self) -> (s: &'static str)
        ensures
            s@ == self.name_of(),
    {
        match self {
            InputMethod::Romaji => "romaji",
            InputMethod::Kana => "kana",
        }
    }

    /// The value of a name.
    pub open spec fn named(name: Seq<char>) -> Option<InputMethod> {
        if name == "romaji"@ {
            Some(InputMethod::Romaji)
        } else if name == "kana"@ {
            Some(InputMethod::Kana)
        } else {
            None
        }
    }

    /// The value of a name.
    pub fn from_name(name: &str) -> (r: Option<Self>)
        ensures
            r == InputMethod::named(name@),
    {
        if strings::same_text(name, "romaji") {
            Some(InputMethod::Romaji)
        } else if strings::same_text(name, "kana") {
            Some(InputMethod::Kana)
        } else {
            None
        }
    }

    /// Every value is found by its name.
    pub proof fn name_round_trips(self)
        ensures
            InputMethod::named(self.name_of()) == Some(self),
            config_text::plain(self.name_of()),
    {
        reveal_strlit("romaji");
        reveal_strlit("kana");
        assert(strings::signature("romaji"@) == 14093728902);
        assert(strings::signature("kana"@) == 13019126468);
    }
}

/// Into how many segments a reading is converted.
#[derive(Debug, Clone, Copy, PartialEq, Eq, Structural)]
pub enum ConversionMethod {
    MultiSegment,
    /// One, which covers all of the reading.
    SingleSegment,
}

impl Default for ConversionMethod {
    fn default() -> (r: Self)
        ensures
            r == ConversionMethod::MultiSegment,
    {
        ConversionMethod::MultiSegment
    }
}

impl ConversionMethod {
    /// Every value, in order.
    pub const ALL: [ConversionMethod; 2] = [
        ConversionMethod::MultiSegment,
        ConversionMethod::SingleSegment,
    ];

    /// The name of the value.
    pub open spec fn name_of(self) -> Seq<char> {
        match self {
            ConversionMethod::MultiSegment => "multi-segment"@,
            ConversionMethod::SingleSegment => "single-segment"@,
        }
    }

    /// The name of the value.
    pub fn name(self) -> (s: &'static str)
        ensures
            s@ == self.name_of(),
    {
        match self {
            ConversionMethod::MultiSegment => "multi-segment",
            ConversionMethod::SingleSegment => "single-segment",
        }
    }

    /// The value of a name.
    pub open spec fn named(name: Seq<char>) -> Option<ConversionMethod> {
        if name == "multi-segment"@ {
            Some(ConversionMethod::MultiSegment)
        } else if name == "single-segment"@ {
            Some(ConversionMethod::SingleSegment)
        } else {
            None
        }
    }

    /// The value of a name.
    pub fn from_name(name: &str) -> (r: Option<Self>)
        ensures
            r == ConversionMethod::named(name@),
    {
        if strings::same_text(name, "multi-segment") {
            Some(ConversionMethod::MultiSegment)
        } else if strings::same_text(name, "single-segment") {
            Some(ConversionMethod::SingleSegment)
        } else {
            None
        }
    }

    /// Every value is found by its name.
    pub proof fn name_round_trips(self)
        ensures
            ConversionMethod::named(self.name_of()) == Some(self),
            config_text::plain(self.name_of()),
    {
        reveal_strlit("multi-segment");
        reveal_strlit("single-segment");
        assert(strings::signature("multi-segment"@) == 15675538253);
        assert(strings::signature("single-segment"@) == 15684385998);
    }
}

/// The width of the space that the Space key types.
#[derive(Debug, Clone, Copy, PartialEq, Eq, Structural)]
pub enum SpaceWidth {
    /// Half-width in the half-width mode, and full-width in the others.
    SameAsInput,
    Full,
    Half,
}

impl Default for SpaceWidth {
    fn default() -> (r: Self)
        ensures
            r == SpaceWidth::SameAsInput,
    {
        SpaceWidth::SameAsInput
    }
}

impl SpaceWidth {
    /// Every value, in order.
    pub const ALL: [SpaceWidth; 3] = [SpaceWidth::SameAsInput, SpaceWidth::Full, SpaceWidth::Half];

    /// The name of the value.
    pub open spec fn name_of(self) -> Seq<char> {
        match self {
            SpaceWidth::SameAsInput => "same-as-input"@,
            SpaceWidth::Full => "full"@,
            SpaceWidth::Half => "half"@,
        }
    }

    /// The name of the value.
    pub fn name(self) -> (s: &'static str)
        ensures
            s@ == self.name_of(),
    {
        match self {
            SpaceWidth::SameAsInput => "same-as-input",
            SpaceWidth::Full => "full",
            SpaceWidth::Half => "half",
        }
    }

    /// The value of a name.
    pub open spec fn named(name: Seq<char>) -> Option<SpaceWidth> {
        if name == "same-as-input"@ {
            Some(SpaceWidth::SameAsInput)
        } else if name == "full"@ {
            Some(SpaceWidth::Full)
        } else if name == "half"@ {
            Some(SpaceWidth::Half)
        } else {
            None
        }
    }

    /// The value of a name.
    pub fn from_name(name: &str) -> (r: Option<Self>)
        ensures
            r == SpaceWidth::named(name@),
    {
        if strings::same_text(name, "same-as-input") {
            Some(SpaceWidth::SameAsInput)
        } else if strings::same_text(name, "full") {
            Some(SpaceWidth::Full)
        } else if strings::same_text(name, "half") {
            Some(SpaceWidth::Half)
        } else {
            None
        }
    }

    /// Every value is found by its name.
    pub proof fn name_round_trips(self)
        ensures
            SpaceWidth::named(self.name_of()) == Some(self),
            config_text::plain(self.name_of()),
    {
        reveal_strlit("same-as-input");
        reveal_strlit("full");
        reveal_strlit("half");
        assert(strings::signature("same-as-input"@) == 15687498957);
        assert(strings::signature("full"@) == 14495521156);
        assert(strings::signature("half"@) == 13690214916);
    }
}

/// The width of the space that Shift and the Space key type.
#[derive(Debug, Clone, Copy, PartialEq, Eq, Structural)]
pub enum ShiftSpaceBehavior {
    /// The other width than that of the Space key.
    Opposite,
    Full,
    Half,
}

impl Default for ShiftSpaceBehavior {
    fn default() -> (r: Self)
        ensures
            r == ShiftSpaceBehavior::Opposite,
    {
        ShiftSpaceBehavior::Opposite
    }
}

impl ShiftSpaceBehavior {
    /// Every value, in order.
    pub const ALL: [ShiftSpaceBehavior; 3] = [
        ShiftSpaceBehavior::Opposite,
        ShiftSpaceBehavior::Full,
        ShiftSpaceBehavior::Half,
    ];

    /// The name of the value.
    pub open spec fn name_of(self) -> Seq<char> {
        match self {
            ShiftSpaceBehavior::Opposite => "opposite"@,
            ShiftSpaceBehavior::Full => "full"@,
            ShiftSpaceBehavior::Half => "half"@,
        }
    }

    /// The name of the value.
    pub fn name(self) -> (s: &'static str)
        ensures
            s@ == self.name_of(),
    {
        match self {
            ShiftSpaceBehavior::Opposite => "opposite",
            ShiftSpaceBehavior::Full => "full",
            ShiftSpaceBehavior::Half => "half",
        }
    }

    /// The value of a name.
    pub open spec fn named(name: Seq<char>) -> Option<ShiftSpaceBehavior> {
        if name == "opposite"@ {
            Some(ShiftSpaceBehavior::Opposite)
        } else if name == "full"@ {
            Some(ShiftSpaceBehavior::Full)
        } else if name == "half"@ {
            Some(ShiftSpaceBehavior::Half)
        } else {
            None
        }
    }

    /// The value of a name.
    pub fn from_name(name: &str) -> (r: Option<Self>)
        ensures
            r == ShiftSpaceBehavior::named(name@),
    {
        if strings::same_text(name, "opposite") {
            Some(ShiftSpaceBehavior::Opposite)
        } else if strings::same_text(name, "full") {
            Some(ShiftSpaceBehavior::Full)
        } else if strings::same_text(name, "half") {
            Some(ShiftSpaceBehavior::Half)
        } else {
            None
        }
    }

    /// Every value is found by its name.
    pub proof fn name_round_trips(self)
        ensures
            ShiftSpaceBehavior::named(self.name_of()) == Some(self),
            config_text::plain(self.name_of()),
    {
        reveal_strlit("opposite");
        reveal_strlit("full");
        reveal_strlit("half");
        assert(strings::signature("opposite"@) == 13556857800);
        assert(strings::signature("full"@) == 14495521156);
        assert(strings::signature("half"@) == 13690214916);
    }
}

/// Which conversions are ranked again by the local model.
#[derive(Debug, Clone, Copy, PartialEq, Eq, Structural)]
pub enum NeuralRerankerScope {
    Off,
    LongTextOnly,
    AllNormalConversions,
}

impl Default for NeuralRerankerScope {
    fn default() -> (r: Self)
        ensures
            r == NeuralRerankerScope::LongTextOnly,
    {
        NeuralRerankerScope::LongTextOnly
    }
}

impl NeuralRerankerScope {
    /// Every value, in order.
    pub const ALL: [NeuralRerankerScope; 3] = [
        NeuralRerankerScope::Off,
        NeuralRerankerScope::LongTextOnly,
        NeuralRerankerScope::AllNormalConversions,
    ];

    /// The name of the value.
    pub open spec fn name_of(self) -> Seq<char> {
        match self {
            NeuralRerankerScope::Off => "off"@,
            NeuralRerankerScope::LongTextOnly => "long-text-only"@,
            NeuralRerankerScope::AllNormalConversions => "all-normal-conversions"@,
        }
    }

    /// The name of the value.
    pub fn name(self) -> (s: &'static str)
        ensures
            s@ == self.name_of(),
    {
        match self {
            NeuralRerankerScope::Off => "off",
            NeuralRerankerScope::LongTextOnly => "long-text-only",
            NeuralRerankerScope::AllNormalConversions => "all-normal-conversions",
        }
    }

    /// The value of a name.
    pub open spec fn named(name: Seq<char>) -> Option<NeuralRerankerScope> {
        if name == "off"@ {
            Some(NeuralRerankerScope::Off)
        } else if name == "long-text-only"@ {
            Some(NeuralRerankerScope::LongTextOnly)
        } else if name == "all-normal-conversions"@ {
            Some(NeuralRerankerScope::AllNormalConversions)
        } else {
            None
        }
    }

    /// The value of a name.
    pub fn from_name(name: &str) -> (r: Option<Self>)
        ensures
            r == NeuralRerankerScope::named(name@),
    {
        if strings::same_text(name, "off") {
            Some(NeuralRerankerScope::Off)
        } else if strings::same_text(name, "long-text-only") {
            Some(NeuralRerankerScope::LongTextOnly)
        } else if strings::same_text(name, "all-normal-conversions") {
            Some(NeuralRerankerScope::AllNormalConversions)
        } else {
            None
        }
    }

    /// Every value is found by its name.
    pub proof fn name_round_trips(self)
        ensures
            NeuralRerankerScope::named(self.name_of()) == Some(self),
            config_text::plain(self.name_of()),
    {
        reveal_strlit("off");
        reveal_strlit("long-text-only");
        reveal_strlit("all-normal-conversions");
        assert(strings::signature("off"@) == 13690215363);
        assert(strings::signature("long-text-only"@) == 16357694222);
        assert(strings::signature("all-normal-conversions"@) == 15483140182);
    }
}

impl SpaceWidth {
    /// Whether the space is full-width in a mode.
    pub open spec fn full_in(self, mode: Mode) -> bool {
        match self {
            SpaceWidth::SameAsInput => !(mode is HalfAlnum || mode is Direct),
            SpaceWidth::Full => true,
            SpaceWidth::Half => false,
        }
    }

    /// Whether the space is full-width in a mode.
    pub fn is_full(self, mode: Mode) -> (r: bool)
        ensures
            r == self.full_in(mode),
    {
        match self {
            SpaceWidth::SameAsInput => match mode {
                Mode::HalfAlnum | Mode::Direct => false,
                _ => true,
            },
            SpaceWidth::Full => true,
            SpaceWidth::Half => false,
        }
    }
}

impl ShiftSpaceBehavior {
    /// Whether the space is full-width, where that of the Space key is or is not.
    pub open spec fn full_for(self, base_is_full: bool) -> bool {
        match self {
            ShiftSpaceBehavior::Opposite => !base_is_full,
            ShiftSpaceBehavior::Full => true,
            ShiftSpaceBehavior::Half => false,
        }
    }

    /// Whether the space is full-width, where that of the Space key is or is not.
    pub fn is_full(self, base_is_full: bool) -> (r: bool)
        ensures
            r == self.full_for(base_is_full),
    {
        match self {
            ShiftSpaceBehavior::Opposite => !base_is_full,
            ShiftSpaceBehavior::Full => true,
            ShiftSpaceBehavior::Half => false,
        }
    }
}

/// All the preferences.
#[derive(Debug, Clone, Copy, PartialEq, Eq, Structural)]
pub struct Preferences {
    pub keymap_preset: Preset,
    pub input_method: InputMethod,
    pub conversion_method: ConversionMethod,
    /// The mode that a new context starts in, where its application has no profile.
    pub default_mode: Mode,
    pub normalizer: Normalizer,
    pub space_width: SpaceWidth,
    pub shift_space_behavior: ShiftSpaceBehavior,
    pub prediction_enabled: bool,
    pub suggest_accept: SuggestAccept,
    /// Whether conversion looks at the segment before.
    pub association_enabled: bool,
    pub input_support: InputSupport,
    pub neural_reranker_scope: NeuralRerankerScope,
    pub appearance_theme: AppearanceTheme,
    pub pad_shortcut: PadShortcut,
    /// Whether keys are recorded for development. It is off unless it is asked for.
    pub developer_mode: bool,
}

impl Preferences {
    /// The preferences at first.
    pub open spec fn initial() -> Preferences {
        Preferences {
            keymap_preset: Preset::MsIme,
            input_method: InputMethod::Romaji,
            conversion_method: ConversionMethod::MultiSegment,
            default_mode: Mode::Hiragana,
            normalizer: Normalizer::plain(),
            space_width: SpaceWidth::SameAsInput,
            shift_space_behavior: ShiftSpaceBehavior::Opposite,
            prediction_enabled: true,
            suggest_accept: SuggestAccept::Tab,
            association_enabled: true,
            input_support: InputSupport::all_on(),
            neural_reranker_scope: NeuralRerankerScope::LongTextOnly,
            appearance_theme: AppearanceTheme::Auto,
            pad_shortcut: PadShortcut::Disabled,
            developer_mode: false,
        }
    }
}

impl Default for Preferences {
    fn default() -> (r: Self)
        ensures
            r == Preferences::initial(),
    {
        Preferences {
            keymap_preset: Preset::MsIme,
            input_method: InputMethod::Romaji,
            conversion_method: ConversionMethod::MultiSegment,
            default_mode: Mode::Hiragana,
            normalizer: Normalizer::default(),
            space_width: SpaceWidth::SameAsInput,
            shift_space_behavior: ShiftSpaceBehavior::Opposite,
            prediction_enabled: true,
            suggest_accept: SuggestAccept::Tab,
            association_enabled: true,
            input_support: InputSupport::default(),
            neural_reranker_scope: NeuralRerankerScope::LongTextOnly,
            appearance_theme: AppearanceTheme::Auto,
            pad_shortcut: PadShortcut::Disabled,
            developer_mode: false,
        }
    }
}

/// A convention of writing, which fixes the widths, the punctuation, the brackets
/// and the width of the space at once.
///
/// It is no preference of its own: applying one sets the preferences that it fixes,
/// and which one is in force can be read off them.
#[derive(Debug, Clone, Copy, PartialEq, Eq, Structural)]
pub enum NotationStyle {
    /// Ordinary prose.
    Standard,
    /// Prose that is typeset out of plain text.
    TechnicalPaper,
    /// Papers with full-width commas and full stops.
    Academic,
    /// Official documents.
    Official,
}

impl Default for NotationStyle {
    fn default() -> (r: Self)
        ensures
            r == NotationStyle::Standard,
    {
        NotationStyle::Standard
    }
}

impl NotationStyle {
    /// Every convention, in order.
    pub const ALL: [NotationStyle; 4] = [
        NotationStyle::Standard,
        NotationStyle::TechnicalPaper,
        NotationStyle::Academic,
        NotationStyle::Official,
    ];

    /// What the convention fixes.
    pub open spec fn fixes(self) -> (Normalizer, SpaceWidth) {
        let (comma, period, space) = match self {
            NotationStyle::Standard => (
                CommaMark::Touten,
                PeriodMark::Kuten,
                SpaceWidth::SameAsInput,
            ),
            NotationStyle::TechnicalPaper => (
                CommaMark::HalfWidth,
                PeriodMark::HalfWidth,
                SpaceWidth::Half,
            ),
            NotationStyle::Academic => (
                CommaMark::FullWidth,
                PeriodMark::FullWidth,
                SpaceWidth::Half,
            ),
            NotationStyle::Official => (
                CommaMark::FullWidth,
                PeriodMark::Kuten,
                SpaceWidth::SameAsInput,
            ),
        };
        (
            Normalizer {
                width: WidthPolicy::all_half(),
                punctuation: PunctuationStyle { comma, period },
                brackets: BracketStyle::Corner,
            },
            space,
        )
    }

    /// What the convention fixes: the look of what is typed, and the width of the
    /// space.
    pub fn payload(self) -> (r: (Normalizer, SpaceWidth))
        ensures
            r == self.fixes(),
    {
        let half = WidthPolicy { alnum: Width::Half, number: Width::Half, symbol: Width::Half };
        let brackets = BracketStyle::Corner;
        match self {
            NotationStyle::Standard => (
                Normalizer { width: half, punctuation: PunctuationStyle::kuten_touten(), brackets },
                SpaceWidth::SameAsInput,
            ),
            NotationStyle::TechnicalPaper => (
                Normalizer { width: half, punctuation: PunctuationStyle::ascii(), brackets },
                SpaceWidth::Half,
            ),
            NotationStyle::Academic => (
                Normalizer { width: half, punctuation: PunctuationStyle::comma_period(), brackets },
                SpaceWidth::Half,
            ),
            NotationStyle::Official => (
                Normalizer { width: half, punctuation: PunctuationStyle::comma_kuten(), brackets },
                SpaceWidth::SameAsInput,
            ),
        }
    }

    /// The label of the convention.
    pub open spec fn label_of(self) -> Seq<char> {
        match self {
            NotationStyle::Standard => "標準（日本語）"@,
            NotationStyle::TechnicalPaper => "日本語技術論文（半角句読点）"@,
            NotationStyle::Academic => "学術（全角コンマ・ピリオド）"@,
            NotationStyle::Official => "公用文"@,
        }
    }

    /// The label of the convention.
    pub fn label(self) -> (s: &'static str)
        ensures
            s@ == self.label_of(),
    {
        match self {
            NotationStyle::Standard => "標準（日本語）",
            NotationStyle::TechnicalPaper => "日本語技術論文（半角句読点）",
            NotationStyle::Academic => "学術（全角コンマ・ピリオド）",
            NotationStyle::Official => "公用文",
        }
    }

    /// Sets what the convention fixes, and nothing else.
    pub fn apply_to(self, preferences: &mut Preferences)
        ensures
            *final(preferences) == (Preferences {
                normalizer: self.fixes().0,
                space_width: self.fixes().1,
                ..*old(preferences)
            }),
    {
        let (normalizer, space_width) = self.payload();
        preferences.normalizer = normalizer;
        preferences.space_width = space_width;
    }

    /// The convention that preferences follow, where they follow one.
    pub fn of(preferences: &Preferences) -> (r: Option<Self>)
        ensures
            match r {
                Some(style) => style.fixes() == (preferences.normalizer, preferences.space_width),
                None => forall|style: NotationStyle| #[trigger]
                    style.fixes() != (preferences.normalizer, preferences.space_width),
            },
    {
        let mut i: usize = 0;
        while i < 4
            invariant
                i <= 4,
                forall|k: int|
                    0 <= k < i ==> (#[trigger] NotationStyle::ALL@[k]).fixes() != (
                        preferences.normalizer,
                        preferences.space_width,
                    ),
            decreases 4 - i,
        {
            let style: NotationStyle = NotationStyle::ALL[i];
            let (normalizer, space_width) = style.payload();
            if normalizer == preferences.normalizer && space_width == preferences.space_width {
                return Some(style);
            }
            i = i + 1;
        }
        proof {
            assert forall|style: NotationStyle| #[trigger]
                style.fixes() != (preferences.normalizer, preferences.space_width) by {
                assert(NotationStyle::ALL@[style.number_of()] == style);
            }
        }
        None
    }

    /// The place of the convention in the order.
    pub open spec fn number_of(self) -> int {
        match self {
            NotationStyle::Standard => 0,
            NotationStyle::TechnicalPaper => 1,
            NotationStyle::Academic => 2,
            NotationStyle::Official => 3,
        }
    }

    /// What the convention fixes, without the width of the space.
    pub fn normalizer(self) -> (r: Normalizer)
        ensures
            r == self.fixes().0,
    {
        self.payload().0
    }

    /// The convention that a normalizer follows, where it follows one.
    pub fn of_normalizer(normalizer: &Normalizer) -> (r: Option<Self>)
        ensures
            match r {
                Some(style) => style.fixes().0 == *normalizer,
                None => forall|style: NotationStyle| (#[trigger] style.fixes()).0 != *normalizer,
            },
    {
        let mut i: usize = 0;
        while i < 4
            invariant
                i <= 4,
                forall|k: int|
                    0 <= k < i ==> (#[trigger] NotationStyle::ALL@[k]).fixes().0 != *normalizer,
            decreases 4 - i,
        {
            let style: NotationStyle = NotationStyle::ALL[i];
            if style.normalizer() == *normalizer {
                return Some(style);
            }
            i = i + 1;
        }
        proof {
            assert forall|style: NotationStyle| (#[trigger] style.fixes()).0 != *normalizer by {
                assert(NotationStyle::ALL@[style.number_of()] == style);
            }
        }
        None
    }
}

} // verus!
