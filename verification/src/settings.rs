//! Settings that several parts of the library share.

use crate::config_text;
use crate::strings;
use vstd::prelude::*;

verus! {

/// What typing gives.
#[derive(Debug, Clone, Copy, PartialEq, Eq, Structural)]
pub enum Mode {
    /// The input method is off.
    Direct,
    Hiragana,
    Katakana,
    HalfKatakana,
    FullAlnum,
    HalfAlnum,
}

impl Mode {
    /// Every value, in order.
    pub const ALL: [Mode; 6] = [
        Mode::Direct,
        Mode::Hiragana,
        Mode::Katakana,
        Mode::HalfKatakana,
        Mode::FullAlnum,
        Mode::HalfAlnum,
    ];

    /// The name of the value.
    pub open spec fn name_of(self) -> Seq<char> {
        match self {
            Mode::Direct => "direct"@,
            Mode::Hiragana => "hiragana"@,
            Mode::Katakana => "katakana"@,
            Mode::HalfKatakana => "half-katakana"@,
            Mode::FullAlnum => "full-alnum"@,
            Mode::HalfAlnum => "half-alnum"@,
        }
    }

    /// The name of the value.
    pub fn name(self) -> (s: &'static str)
        ensures
            s@ == self.name_of(),
    {
        match self {
            Mode::Direct => "direct",
            Mode::Hiragana => "hiragana",
            Mode::Katakana => "katakana",
            Mode::HalfKatakana => "half-katakana",
            Mode::FullAlnum => "full-alnum",
            Mode::HalfAlnum => "half-alnum",
        }
    }

    /// The value of a name.
    pub open spec fn named(name: Seq<char>) -> Option<Mode> {
        if name == "direct"@ {
            Some(Mode::Direct)
        } else if name == "hiragana"@ {
            Some(Mode::Hiragana)
        } else if name == "katakana"@ {
            Some(Mode::Katakana)
        } else if name == "half-katakana"@ {
            Some(Mode::HalfKatakana)
        } else if name == "full-alnum"@ {
            Some(Mode::FullAlnum)
        } else if name == "half-alnum"@ {
            Some(Mode::HalfAlnum)
        } else {
            None
        }
    }

    /// The value of a name.
    pub fn from_name(name: &str) -> (r: Option<Self>)
        ensures
            r == Mode::named(name@),
    {
        if strings::same_text(name, "direct") {
            Some(Mode::Direct)
        } else if strings::same_text(name, "hiragana") {
            Some(Mode::Hiragana)
        } else if strings::same_text(name, "katakana") {
            Some(Mode::Katakana)
        } else if strings::same_text(name, "half-katakana") {
            Some(Mode::HalfKatakana)
        } else if strings::same_text(name, "full-alnum") {
            Some(Mode::FullAlnum)
        } else if strings::same_text(name, "half-alnum") {
            Some(Mode::HalfAlnum)
        } else {
            None
        }
    }

    /// Every value is found by its name.
    pub proof fn name_round_trips(self)
        ensures
            Mode::named(self.name_of()) == Some(self),
            config_text::plain(self.name_of()),
    {
        reveal_strlit("direct");
        reveal_strlit("hiragana");
        reveal_strlit("katakana");
        reveal_strlit("half-katakana");
        reveal_strlit("full-alnum");
        reveal_strlit("half-alnum");
        assert(strings::signature("direct"@) == 15570213126);
        assert(strings::signature("hiragana"@) == 13019920904);
        assert(strings::signature("katakana"@) == 13019921096);
        assert(strings::signature("half-katakana"@) == 13121714701);
        assert(strings::signature("full-alnum"@) == 14630533514);
        assert(strings::signature("half-alnum"@) == 14630533642);
    }
}

/// The colours of the windows.
#[derive(Debug, Clone, Copy, PartialEq, Eq, Structural)]
pub enum AppearanceTheme {
    /// Those of the system.
    Auto,
    Light,
    Dark,
}

impl Default for AppearanceTheme {
    fn default() -> (r: Self)
        ensures
            r == AppearanceTheme::Auto,
    {
        AppearanceTheme::Auto
    }
}

impl AppearanceTheme {
    /// Every value, in order.
    pub const ALL: [AppearanceTheme; 3] = [
        AppearanceTheme::Auto,
        AppearanceTheme::Light,
        AppearanceTheme::Dark,
    ];

    /// The name of the value.
    pub open spec fn name_of(self) -> Seq<char> {
        match self {
            AppearanceTheme::Auto => "auto"@,
            AppearanceTheme::Light => "light"@,
            AppearanceTheme::Dark => "dark"@,
        }
    }

    /// The name of the value.
    pub fn name(self) -> (s: &'static str)
        ensures
            s@ == self.name_of(),
    {
        match self {
            AppearanceTheme::Auto => "auto",
            AppearanceTheme::Light => "light",
            AppearanceTheme::Dark => "dark",
        }
    }

    /// The value of a name.
    pub open spec fn named(name: Seq<char>) -> Option<AppearanceTheme> {
        if name == "auto"@ {
            Some(AppearanceTheme::Auto)
        } else if name == "light"@ {
            Some(AppearanceTheme::Light)
        } else if name == "dark"@ {
            Some(AppearanceTheme::Dark)
        } else {
            None
        }
    }

    /// The value of a name.
    pub fn from_name(name: &str) -> (r: Option<Self>)
        ensures
            r == AppearanceTheme::named(name@),
    {
        if strings::same_text(name, "auto") {
            Some(AppearanceTheme::Auto)
        } else if strings::same_text(name, "light") {
            Some(AppearanceTheme::Light)
        } else if strings::same_text(name, "dark") {
            Some(AppearanceTheme::Dark)
        } else {
            None
        }
    }

    /// Every value is found by its name.
    pub proof fn name_round_trips(self)
        ensures
            AppearanceTheme::named(self.name_of()) == Some(self),
            config_text::plain(self.name_of()),
    {
        reveal_strlit("auto");
        reveal_strlit("light");
        reveal_strlit("dark");
        assert(strings::signature("auto"@) == 14898174020);
        assert(strings::signature("light"@) == 15569263365);
        assert(strings::signature("dark"@) == 14361303300);
    }
}

/// The keys that open the pad.
#[derive(Debug, Clone, Copy, PartialEq, Eq, Structural)]
pub enum PadShortcut {
    Disabled,
    /// Ctrl, pressed twice.
    DoubleCtrl,
}

impl Default for PadShortcut {
    fn default() -> (r: Self)
        ensures
            r == PadShortcut::Disabled,
    {
        PadShortcut::Disabled
    }
}

impl PadShortcut {
    /// Every value, in order.
    pub const ALL: [PadShortcut; 2] = [PadShortcut::Disabled, PadShortcut::DoubleCtrl];

    /// The name of the value.
    pub open spec fn name_of(self) -> Seq<char> {
        match self {
            PadShortcut::Disabled => "disabled"@,
            PadShortcut::DoubleCtrl => "double-ctrl"@,
        }
    }

    /// The name of the value.
    pub fn name(self) -> (s: &'static str)
        ensures
            s@ == self.name_of(),
    {
        match self {
            PadShortcut::Disabled => "disabled",
            PadShortcut::DoubleCtrl => "double-ctrl",
        }
    }

    /// The value of a name.
    pub open spec fn named(name: Seq<char>) -> Option<PadShortcut> {
        if name == "disabled"@ {
            Some(PadShortcut::Disabled)
        } else if name == "double-ctrl"@ {
            Some(PadShortcut::DoubleCtrl)
        } else {
            None
        }
    }

    /// The value of a name.
    pub fn from_name(name: &str) -> (r: Option<Self>)
        ensures
            r == PadShortcut::named(name@),
    {
        if strings::same_text(name, "disabled") {
            Some(PadShortcut::Disabled)
        } else if strings::same_text(name, "double-ctrl") {
            Some(PadShortcut::DoubleCtrl)
        } else {
            None
        }
    }

    /// Every value is found by its name.
    pub proof fn name_round_trips(self)
        ensures
            PadShortcut::named(self.name_of()) == Some(self),
            config_text::plain(self.name_of()),
    {
        reveal_strlit("disabled");
        reveal_strlit("double-ctrl");
        assert(strings::signature("disabled"@) == 13422663944);
        assert(strings::signature("double-ctrl"@) == 14609594635);
    }
}

} // verus!
