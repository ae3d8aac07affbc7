//! How the marks and letters that are typed look.

use crate::config_text;
use crate::editing;
use crate::editing::to_full_width;
use crate::input_repair::kana;
use crate::input_repair::kana::{is_ascii_digit, is_ascii_letter};
use crate::settings::Mode;
use crate::strings;
use vstd::prelude::*;

verus! {

/// The width of a kind of character.
#[derive(Debug, Clone, Copy, PartialEq, Eq, Structural)]
pub enum Width {
    Half,
    Full,
    /// As the mode has it.
    FollowMode,
}

impl Default for Width {
    fn default() -> (r: Self)
        ensures
            r == Width::Half,
    {
        Width::Half
    }
}

impl Width {
    /// Every value, in order.
    pub const ALL: [Width; 3] = [Width::Half, Width::Full, Width::FollowMode];

    /// The name of the value.
    pub open spec fn name_of(self) -> Seq<char> {
        match self {
            Width::Half => "half"@,
            Width::Full => "full"@,
            Width::FollowMode => "follow-mode"@,
        }
    }

    /// The name of the value.
    pub fn name(self) -> (s: &'static str)
        ensures
            s@ == self.name_of(),
    {
        match self {
            Width::Half => "half",
            Width::Full => "full",
            Width::FollowMode => "follow-mode",
        }
    }

    /// The value of a name.
    pub open spec fn named(name: Seq<char>) -> Option<Width> {
        if name == "half"@ {
            Some(Width::Half)
        } else if name == "full"@ {
            Some(Width::Full)
        } else if name == "follow-mode"@ {
            Some(Width::FollowMode)
        } else {
            None
        }
    }

    /// The value of a name.
    pub fn from_name(name: &str) -> (r: Option<Self>)
        ensures
            r == Width::named(name@),
    {
        if strings::same_text(name, "half") {
            Some(Width::Half)
        } else if strings::same_text(name, "full") {
            Some(Width::Full)
        } else if strings::same_text(name, "follow-mode") {
            Some(Width::FollowMode)
        } else {
            None
        }
    }

    /// Every value is found by its name.
    pub proof fn name_round_trips(self)
        ensures
            Width::named(self.name_of()) == Some(self),
            config_text::plain(self.name_of()),
    {
        reveal_strlit("half");
        reveal_strlit("full");
        reveal_strlit("follow-mode");
        assert(strings::signature("half"@) == 13690214916);
        assert(strings::signature("full"@) == 14495521156);
        assert(strings::signature("follow-mode"@) == 13662878091);
    }
}

impl Width {
    /// Whether a kind of character is wide in a mode.
    pub open spec fn full_in(self, mode: Mode) -> bool {
        match self {
            Width::Half => false,
            Width::Full => true,
            Width::FollowMode => !(mode is HalfAlnum || mode is Direct),
        }
    }

    /// Whether a kind of character is wide in a mode.
    pub fn is_full(self, mode: Mode) -> (r: bool)
        ensures
            r == self.full_in(mode),
    {
        match self {
            Width::Half => false,
            Width::Full => true,
            Width::FollowMode => match mode {
                Mode::HalfAlnum => false,
                Mode::Direct => false,
                _ => true,
            },
        }
    }
}

/// The widths of letters, digits and other ASCII characters.
#[derive(Debug, Clone, Copy, PartialEq, Eq, Structural)]
pub struct WidthPolicy {
    pub alnum: Width,
    pub number: Width,
    pub symbol: Width,
}

impl WidthPolicy {
    /// All of it half-width.
    pub open spec fn all_half() -> WidthPolicy {
        WidthPolicy { alnum: Width::Half, number: Width::Half, symbol: Width::Half }
    }
}

impl Default for WidthPolicy {
    fn default() -> (r: Self)
        ensures
            r == WidthPolicy::all_half(),
    {
        WidthPolicy { alnum: Width::Half, number: Width::Half, symbol: Width::Half }
    }
}

/// The mark between clauses.
#[derive(Debug, Clone, Copy, PartialEq, Eq, Structural)]
pub enum CommaMark {
    /// `、`
    Touten,
    /// `，`
    FullWidth,
    /// `,`
    HalfWidth,
}

impl CommaMark {
    /// The mark itself.
    pub open spec fn glyph_of(self) -> char {
        match self {
            CommaMark::Touten => '、',
            CommaMark::FullWidth => '，',
            CommaMark::HalfWidth => ',',
        }
    }

    /// The mark itself.
    pub fn glyph(self) -> (c: char)
        ensures
            c == self.glyph_of(),
    {
        match self {
            CommaMark::Touten => '、',
            CommaMark::FullWidth => '，',
            CommaMark::HalfWidth => ',',
        }
    }
}

/// The mark at the end of a sentence.
#[derive(Debug, Clone, Copy, PartialEq, Eq, Structural)]
pub enum PeriodMark {
    /// `。`
    Kuten,
    /// `．`
    FullWidth,
    /// `.`
    HalfWidth,
}

impl PeriodMark {
    /// The mark itself.
    pub open spec fn glyph_of(self) -> char {
        match self {
            PeriodMark::Kuten => '。',
            PeriodMark::FullWidth => '．',
            PeriodMark::HalfWidth => '.',
        }
    }

    /// The mark itself.
    pub fn glyph(self) -> (c: char)
        ensures
            c == self.glyph_of(),
    {
        match self {
            PeriodMark::Kuten => '。',
            PeriodMark::FullWidth => '．',
            PeriodMark::HalfWidth => '.',
        }
    }
}

/// The two marks of punctuation, each chosen by itself.
#[derive(Debug, Clone, Copy, PartialEq, Eq, Structural)]
pub struct PunctuationStyle {
    pub comma: CommaMark,
    pub period: PeriodMark,
}

impl PunctuationStyle {
    /// The style of two marks.
    pub fn new(comma: CommaMark, period: PeriodMark) -> (r: Self)
        ensures
            r == (PunctuationStyle { comma, period }),
    {
        PunctuationStyle { comma, period }
    }

    /// `、` and `。`
    pub fn kuten_touten() -> (r: Self)
        ensures
            r == (PunctuationStyle { comma: CommaMark::Touten, period: PeriodMark::Kuten }),
    {
        PunctuationStyle { comma: CommaMark::Touten, period: PeriodMark::Kuten }
    }

    /// `，` and `．`
    pub fn comma_period() -> (r: Self)
        ensures
            r == (PunctuationStyle { comma: CommaMark::FullWidth, period: PeriodMark::FullWidth }),
    {
        PunctuationStyle { comma: CommaMark::FullWidth, period: PeriodMark::FullWidth }
    }

    /// `、` and `．`
    pub fn mixed() -> (r: Self)
        ensures
            r == (PunctuationStyle { comma: CommaMark::Touten, period: PeriodMark::FullWidth }),
    {
        PunctuationStyle { comma: CommaMark::Touten, period: PeriodMark::FullWidth }
    }

    /// `，` and `。`
    pub fn comma_kuten() -> (r: Self)
        ensures
            r == (PunctuationStyle { comma: CommaMark::FullWidth, period: PeriodMark::Kuten }),
    {
        PunctuationStyle { comma: CommaMark::FullWidth, period: PeriodMark::Kuten }
    }

    /// `,` and `.`
    pub fn ascii() -> (r: Self)
        ensures
            r == (PunctuationStyle { comma: CommaMark::HalfWidth, period: PeriodMark::HalfWidth }),
    {
        PunctuationStyle { comma: CommaMark::HalfWidth, period: PeriodMark::HalfWidth }
    }

    /// The name of the style.
    pub open spec fn name_of(self) -> Seq<char> {
        match (self.comma, self.period) {
            (CommaMark::Touten, PeriodMark::Kuten) => "kuten-touten"@,
            (CommaMark::FullWidth, PeriodMark::FullWidth) => "comma-period"@,
            (CommaMark::Touten, PeriodMark::FullWidth) => "mixed"@,
            (CommaMark::FullWidth, PeriodMark::Kuten) => "comma-kuten"@,
            (CommaMark::Touten, PeriodMark::HalfWidth) => "touten-half-period"@,
            (CommaMark::FullWidth, PeriodMark::HalfWidth) => "full-comma-half-period"@,
            (CommaMark::HalfWidth, PeriodMark::Kuten) => "half-comma-kuten"@,
            (CommaMark::HalfWidth, PeriodMark::FullWidth) => "half-comma-full-period"@,
            (CommaMark::HalfWidth, PeriodMark::HalfWidth) => "half-comma-half-period"@,
        }
    }

    /// The name of the style.
    pub fn name(self) -> (s: &'static str)
        ensures
            s@ == self.name_of(),
    {
        match (self.comma, self.period) {
            (CommaMark::Touten, PeriodMark::Kuten) => "kuten-touten",
            (CommaMark::FullWidth, PeriodMark::FullWidth) => "comma-period",
            (CommaMark::Touten, PeriodMark::FullWidth) => "mixed",
            (CommaMark::FullWidth, PeriodMark::Kuten) => "comma-kuten",
            (CommaMark::Touten, PeriodMark::HalfWidth) => "touten-half-period",
            (CommaMark::FullWidth, PeriodMark::HalfWidth) => "full-comma-half-period",
            (CommaMark::HalfWidth, PeriodMark::Kuten) => "half-comma-kuten",
            (CommaMark::HalfWidth, PeriodMark::FullWidth) => "half-comma-full-period",
            (CommaMark::HalfWidth, PeriodMark::HalfWidth) => "half-comma-half-period",
        }
    }

    /// The style of a name. Four styles have a second name, out of the names of
    /// their marks.
    pub open spec fn named(name: Seq<char>) -> Option<PunctuationStyle> {
        if name == "kuten-touten"@ || name == "touten-kuten"@ {
            Some(PunctuationStyle { comma: CommaMark::Touten, period: PeriodMark::Kuten })
        } else if name == "comma-period"@ || name == "full-comma-full-period"@ {
            Some(PunctuationStyle { comma: CommaMark::FullWidth, period: PeriodMark::FullWidth })
        } else if name == "mixed"@ || name == "touten-full-period"@ {
            Some(PunctuationStyle { comma: CommaMark::Touten, period: PeriodMark::FullWidth })
        } else if name == "comma-kuten"@ || name == "full-comma-kuten"@ {
            Some(PunctuationStyle { comma: CommaMark::FullWidth, period: PeriodMark::Kuten })
        } else if name == "touten-half-period"@ {
            Some(PunctuationStyle { comma: CommaMark::Touten, period: PeriodMark::HalfWidth })
        } else if name == "full-comma-half-period"@ {
            Some(PunctuationStyle { comma: CommaMark::FullWidth, period: PeriodMark::HalfWidth })
        } else if name == "half-comma-kuten"@ {
            Some(PunctuationStyle { comma: CommaMark::HalfWidth, period: PeriodMark::Kuten })
        } else if name == "half-comma-full-period"@ {
            Some(PunctuationStyle { comma: CommaMark::HalfWidth, period: PeriodMark::FullWidth })
        } else if name == "half-comma-half-period"@ {
            Some(PunctuationStyle { comma: CommaMark::HalfWidth, period: PeriodMark::HalfWidth })
        } else {
            None
        }
    }

    /// The style of a name.
    pub fn from_name(name: &str) -> (r: Option<Self>)
        ensures
            r == PunctuationStyle::named(name@),
    {
        if strings::same_text(name, "kuten-touten") || strings::same_text(name, "touten-kuten") {
            return Some(PunctuationStyle { comma: CommaMark::Touten, period: PeriodMark::Kuten });
        }
        if strings::same_text(name, "comma-period") || strings::same_text(name, "full-comma-full-period") {
            return Some(PunctuationStyle { comma: CommaMark::FullWidth, period: PeriodMark::FullWidth });
        }
        if strings::same_text(name, "mixed") || strings::same_text(name, "touten-full-period") {
            return Some(PunctuationStyle { comma: CommaMark::Touten, period: PeriodMark::FullWidth });
        }
        if strings::same_text(name, "comma-kuten") || strings::same_text(name, "full-comma-kuten") {
            return Some(PunctuationStyle { comma: CommaMark::FullWidth, period: PeriodMark::Kuten });
        }
        if strings::same_text(name, "touten-half-period") {
            return Some(PunctuationStyle { comma: CommaMark::Touten, period: PeriodMark::HalfWidth });
        }
        if strings::same_text(name, "full-comma-half-period") {
            return Some(PunctuationStyle { comma: CommaMark::FullWidth, period: PeriodMark::HalfWidth });
        }
        if strings::same_text(name, "half-comma-kuten") {
            return Some(PunctuationStyle { comma: CommaMark::HalfWidth, period: PeriodMark::Kuten });
        }
        if strings::same_text(name, "half-comma-full-period") {
            return Some(PunctuationStyle { comma: CommaMark::HalfWidth, period: PeriodMark::FullWidth });
        }
        if strings::same_text(name, "half-comma-half-period") {
            return Some(PunctuationStyle { comma: CommaMark::HalfWidth, period: PeriodMark::HalfWidth });
        }
        None
    }

    /// Every style is found by its name.
    pub proof fn name_round_trips(self)
        ensures
            PunctuationStyle::named(self.name_of()) == Some(self),
            config_text::plain(self.name_of()),
    {
        reveal_strlit("kuten-touten");
        reveal_strlit("touten-kuten");
        reveal_strlit("comma-period");
        reveal_strlit("full-comma-full-period");
        reveal_strlit("mixed");
        reveal_strlit("touten-full-period");
        reveal_strlit("comma-kuten");
        reveal_strlit("full-comma-kuten");
        reveal_strlit("touten-half-period");
        reveal_strlit("full-comma-half-period");
        reveal_strlit("half-comma-kuten");
        reveal_strlit("half-comma-full-period");
        reveal_strlit("half-comma-half-period");
        assert(strings::char_code("kuten-touten"@, 11) == 110 && strings::signature("kuten-touten"@)
            == 14870231756);
        assert(strings::char_code("touten-kuten"@, 11) == 110 && strings::signature("touten-kuten"@)
            == 14870764812);
        assert(strings::char_code("comma-period"@, 11) == 100 && strings::signature("comma-period"@)
            == 13538539724);
        assert(strings::char_code("full-comma-full-period"@, 11) == 102 && strings::signature("full-comma-full-period"@)
            == 13469776278);
        assert(strings::char_code("mixed"@, 11) == 0 && strings::signature("mixed"@)
            == 13421779781);
        assert(strings::char_code("touten-full-period"@, 11) == 45 && strings::signature("touten-full-period"@)
            == 13535927570);
        assert(strings::char_code("comma-kuten"@, 11) == 0 && strings::signature("comma-kuten"@)
            == 14879668427);
        assert(strings::char_code("full-comma-kuten"@, 11) == 107 && strings::signature("full-comma-kuten"@)
            == 14811953552);
        assert(strings::char_code("touten-half-period"@, 11) == 45 && strings::signature("touten-half-period"@)
            == 13529636114);
        assert(strings::char_code("full-comma-half-period"@, 11) == 104 && strings::signature("full-comma-half-period"@)
            == 13469776278);
        assert(strings::char_code("half-comma-kuten"@, 11) == 107 && strings::signature("half-comma-kuten"@)
            == 14811953680);
        assert(strings::char_code("half-comma-full-period"@, 11) == 102 && strings::signature("half-comma-full-period"@)
            == 13469776406);
        assert(strings::char_code("half-comma-half-period"@, 11) == 104 && strings::signature("half-comma-half-period"@)
            == 13469776406);
    }

    /// Every style, in order.
    pub fn all() -> (r: Vec<PunctuationStyle>)
        ensures
            r@.len() == 9,
            forall|style: PunctuationStyle| #[trigger] r@.contains(style),
    {
        let r: Vec<PunctuationStyle> = vec![
            PunctuationStyle { comma: CommaMark::Touten, period: PeriodMark::Kuten },
            PunctuationStyle { comma: CommaMark::Touten, period: PeriodMark::FullWidth },
            PunctuationStyle { comma: CommaMark::Touten, period: PeriodMark::HalfWidth },
            PunctuationStyle { comma: CommaMark::FullWidth, period: PeriodMark::Kuten },
            PunctuationStyle { comma: CommaMark::FullWidth, period: PeriodMark::FullWidth },
            PunctuationStyle { comma: CommaMark::FullWidth, period: PeriodMark::HalfWidth },
            PunctuationStyle { comma: CommaMark::HalfWidth, period: PeriodMark::Kuten },
            PunctuationStyle { comma: CommaMark::HalfWidth, period: PeriodMark::FullWidth },
            PunctuationStyle { comma: CommaMark::HalfWidth, period: PeriodMark::HalfWidth },
        ];
        proof {
            assert forall|style: PunctuationStyle| #[trigger] r@.contains(style) by {
                let c: int = match style.comma {
                    CommaMark::Touten => 0,
                    CommaMark::FullWidth => 1,
                    CommaMark::HalfWidth => 2,
                };
                let p: int = match style.period {
                    PeriodMark::Kuten => 0,
                    PeriodMark::FullWidth => 1,
                    PeriodMark::HalfWidth => 2,
                };
                assert(r@[3 * c + p] == style);
            }
        }
        r
    }
}

impl Default for PunctuationStyle {
    fn default() -> (r: Self)
        ensures
            r == (PunctuationStyle { comma: CommaMark::Touten, period: PeriodMark::Kuten }),
    {
        PunctuationStyle::kuten_touten()
    }
}

/// The brackets that the bracket keys give.
#[derive(Debug, Clone, Copy, PartialEq, Eq, Structural)]
pub enum BracketStyle {
    /// `「` and `」`
    Corner,
    /// `［` and `］`
    Square,
}

impl Default for BracketStyle {
    fn default() -> (r: Self)
        ensures
            r == BracketStyle::Corner,
    {
        BracketStyle::Corner
    }
}

impl BracketStyle {
    /// Every value, in order.
    pub const ALL: [BracketStyle; 2] = [BracketStyle::Corner, BracketStyle::Square];

    /// The name of the value.
    pub open spec fn name_of(self) -> Seq<char> {
        match self {
            BracketStyle::Corner => "corner"@,
            BracketStyle::Square => "square"@,
        }
    }

    /// The name of the value.
    pub fn name(self) -> (s: &'static str)
        ensures
            s@ == self.name_of(),
    {
        match self {
            BracketStyle::Corner => "corner",
            BracketStyle::Square => "square",
        }
    }

    /// The value of a name.
    pub open spec fn named(name: Seq<char>) -> Option<BracketStyle> {
        if name == "corner"@ {
            Some(BracketStyle::Corner)
        } else if name == "square"@ {
            Some(BracketStyle::Square)
        } else {
            None
        }
    }

    /// The value of a name.
    pub fn from_name(name: &str) -> (r: Option<Self>)
        ensures
            r == BracketStyle::named(name@),
    {
        if strings::same_text(name, "corner") {
            Some(BracketStyle::Corner)
        } else if strings::same_text(name, "square") {
            Some(BracketStyle::Square)
        } else {
            None
        }
    }

    /// Every value is found by its name.
    pub proof fn name_round_trips(self)
        ensures
            BracketStyle::named(self.name_of()) == Some(self),
            config_text::plain(self.name_of()),
    {
        reveal_strlit("corner");
        reveal_strlit("square");
        assert(strings::signature("corner"@) == 15301761222);
        assert(strings::signature("square"@) == 13556825286);
    }
}

/// How everything that is typed looks.
#[derive(Debug, Clone, Copy, PartialEq, Eq, Structural)]
pub struct Normalizer {
    pub width: WidthPolicy,
    pub punctuation: PunctuationStyle,
    pub brackets: BracketStyle,
}

/// A mark at the end of a sentence, of either Japanese form.
pub open spec fn japanese_period(c: char) -> bool {
    c == '。' || c == '．'
}

/// A mark between clauses, of either Japanese form.
pub open spec fn japanese_comma(c: char) -> bool {
    c == '、' || c == '，'
}

impl Normalizer {
    /// What everything looks like at first.
    pub open spec fn plain() -> Normalizer {
        Normalizer {
            width: WidthPolicy::all_half(),
            punctuation: PunctuationStyle { comma: CommaMark::Touten, period: PeriodMark::Kuten },
            brackets: BracketStyle::Corner,
        }
    }

    /// The width of an ASCII character that is printed.
    pub open spec fn width_of(self, c: char) -> Width {
        if kana::ascii_letter(c) {
            self.width.alnum
        } else if kana::ascii_digit(c) {
            self.width.number
        } else {
            self.width.symbol
        }
    }

    /// A character as it looks: Japanese marks by the style of punctuation, what is
    /// printed of ASCII in its width, and everything else as it is.
    pub open spec fn normalized(self, c: char, mode: Mode) -> char {
        if japanese_period(c) {
            self.punctuation.period.glyph_of()
        } else if japanese_comma(c) {
            self.punctuation.comma.glyph_of()
        } else if ' ' <= c && c <= '~' && self.width_of(c).full_in(mode) {
            editing::full_width(c)
        } else {
            c
        }
    }

    /// A character as it looks.
    pub fn normalize_char(self, c: char, mode: Mode) -> (r: char)
        ensures
            r == self.normalized(c, mode),
    {
        if c == '。' || c == '．' {
            return self.punctuation.period.glyph();
        }
        if c == '、' || c == '，' {
            return self.punctuation.comma.glyph();
        }
        if !(' ' <= c && c <= '~') {
            return c;
        }
        let width = if is_ascii_letter(c) {
            self.width.alnum
        } else if is_ascii_digit(c) {
            self.width.number
        } else {
            self.width.symbol
        };
        if width.is_full(mode) {
            to_full_width(c)
        } else {
            c
        }
    }
}

impl Default for Normalizer {
    fn default() -> (r: Self)
        ensures
            r == Normalizer::plain(),
    {
        Normalizer {
            width: WidthPolicy::default(),
            punctuation: PunctuationStyle::default(),
            brackets: BracketStyle::default(),
        }
    }
}

} // verus!
