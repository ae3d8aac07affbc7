//! Key events.

use crate::strings;
use vstd::prelude::*;

verus! {

/// A key of the keyboard.
#[derive(Debug, Clone, Copy, PartialEq, Eq, Structural)]
pub enum KeyCode {
    /// A key that is not known by name.
    Unknown,
    /// A key that types a character.
    Char,
    Space,
    Enter,
    Escape,
    Backspace,
    Delete,
    Tab,
    Left,
    Right,
    Up,
    Down,
    Home,
    End,
    PageUp,
    PageDown,
    /// 変換.
    Henkan,
    /// 無変換.
    Muhenkan,
    /// カタカナ/ひらがな.
    KanaMode,
    /// 半角/全角.
    HankakuZenkaku,
    /// 英数 or Caps Lock.
    CapsLock,
    F1,
    F2,
    F3,
    F4,
    F5,
    F6,
    F7,
    F8,
    F9,
    F10,
    F11,
    F12,
}

/// The number of keys.
pub const KEY_COUNT: usize = 33;

impl KeyCode {
    /// Every key, in order.
    pub const ALL: [KeyCode; 33] = [
        KeyCode::Unknown,
        KeyCode::Char,
        KeyCode::Space,
        KeyCode::Enter,
        KeyCode::Escape,
        KeyCode::Backspace,
        KeyCode::Delete,
        KeyCode::Tab,
        KeyCode::Left,
        KeyCode::Right,
        KeyCode::Up,
        KeyCode::Down,
        KeyCode::Home,
        KeyCode::End,
        KeyCode::PageUp,
        KeyCode::PageDown,
        KeyCode::Henkan,
        KeyCode::Muhenkan,
        KeyCode::KanaMode,
        KeyCode::HankakuZenkaku,
        KeyCode::CapsLock,
        KeyCode::F1,
        KeyCode::F2,
        KeyCode::F3,
        KeyCode::F4,
        KeyCode::F5,
        KeyCode::F6,
        KeyCode::F7,
        KeyCode::F8,
        KeyCode::F9,
        KeyCode::F10,
        KeyCode::F11,
        KeyCode::F12,
    ];

    /// The place of the key in the order.
    pub open spec fn number_of(self) -> u16 {
        match self {
            KeyCode::Unknown => 0,
            KeyCode::Char => 1,
            KeyCode::Space => 2,
            KeyCode::Enter => 3,
            KeyCode::Escape => 4,
            KeyCode::Backspace => 5,
            KeyCode::Delete => 6,
            KeyCode::Tab => 7,
            KeyCode::Left => 8,
            KeyCode::Right => 9,
            KeyCode::Up => 10,
            KeyCode::Down => 11,
            KeyCode::Home => 12,
            KeyCode::End => 13,
            KeyCode::PageUp => 14,
            KeyCode::PageDown => 15,
            KeyCode::Henkan => 16,
            KeyCode::Muhenkan => 17,
            KeyCode::KanaMode => 18,
            KeyCode::HankakuZenkaku => 19,
            KeyCode::CapsLock => 20,
            KeyCode::F1 => 21,
            KeyCode::F2 => 22,
            KeyCode::F3 => 23,
            KeyCode::F4 => 24,
            KeyCode::F5 => 25,
            KeyCode::F6 => 26,
            KeyCode::F7 => 27,
            KeyCode::F8 => 28,
            KeyCode::F9 => 29,
            KeyCode::F10 => 30,
            KeyCode::F11 => 31,
            KeyCode::F12 => 32,
        }
    }

    /// The place of the key in the order.
    pub fn number(self) -> (n: u16)
        ensures
            n == self.number_of(),
    {
        match self {
            KeyCode::Unknown => 0,
            KeyCode::Char => 1,
            KeyCode::Space => 2,
            KeyCode::Enter => 3,
            KeyCode::Escape => 4,
            KeyCode::Backspace => 5,
            KeyCode::Delete => 6,
            KeyCode::Tab => 7,
            KeyCode::Left => 8,
            KeyCode::Right => 9,
            KeyCode::Up => 10,
            KeyCode::Down => 11,
            KeyCode::Home => 12,
            KeyCode::End => 13,
            KeyCode::PageUp => 14,
            KeyCode::PageDown => 15,
            KeyCode::Henkan => 16,
            KeyCode::Muhenkan => 17,
            KeyCode::KanaMode => 18,
            KeyCode::HankakuZenkaku => 19,
            KeyCode::CapsLock => 20,
            KeyCode::F1 => 21,
            KeyCode::F2 => 22,
            KeyCode::F3 => 23,
            KeyCode::F4 => 24,
            KeyCode::F5 => 25,
            KeyCode::F6 => 26,
            KeyCode::F7 => 27,
            KeyCode::F8 => 28,
            KeyCode::F9 => 29,
            KeyCode::F10 => 30,
            KeyCode::F11 => 31,
            KeyCode::F12 => 32,
        }
    }

    /// The name of the key, where it has one.
    pub open spec fn name_of(self) -> Option<Seq<char>> {
        match self {
            KeyCode::Unknown => None,
            KeyCode::Char => None,
            KeyCode::Space => Some("space"@),
            KeyCode::Enter => Some("enter"@),
            KeyCode::Escape => Some("escape"@),
            KeyCode::Backspace => Some("backspace"@),
            KeyCode::Delete => Some("delete"@),
            KeyCode::Tab => Some("tab"@),
            KeyCode::Left => Some("left"@),
            KeyCode::Right => Some("right"@),
            KeyCode::Up => Some("up"@),
            KeyCode::Down => Some("down"@),
            KeyCode::Home => Some("home"@),
            KeyCode::End => Some("end"@),
            KeyCode::PageUp => Some("page_up"@),
            KeyCode::PageDown => Some("page_down"@),
            KeyCode::Henkan => Some("henkan"@),
            KeyCode::Muhenkan => Some("muhenkan"@),
            KeyCode::KanaMode => Some("kana_mode"@),
            KeyCode::HankakuZenkaku => Some("hankaku_zenkaku"@),
            KeyCode::CapsLock => Some("caps_lock"@),
            KeyCode::F1 => Some("f1"@),
            KeyCode::F2 => Some("f2"@),
            KeyCode::F3 => Some("f3"@),
            KeyCode::F4 => Some("f4"@),
            KeyCode::F5 => Some("f5"@),
            KeyCode::F6 => Some("f6"@),
            KeyCode::F7 => Some("f7"@),
            KeyCode::F8 => Some("f8"@),
            KeyCode::F9 => Some("f9"@),
            KeyCode::F10 => Some("f10"@),
            KeyCode::F11 => Some("f11"@),
            KeyCode::F12 => Some("f12"@),
        }
    }

    /// The name of the key, where it has one.
    pub fn name(self) -> (r: Option<&'static str>)
        ensures
            match self.name_of() {
                Some(s) => r matches Some(t) && t@ == s,
                None => r is None,
            },
    {
        match self {
            KeyCode::Unknown => None,
            KeyCode::Char => None,
            KeyCode::Space => Some("space"),
            KeyCode::Enter => Some("enter"),
            KeyCode::Escape => Some("escape"),
            KeyCode::Backspace => Some("backspace"),
            KeyCode::Delete => Some("delete"),
            KeyCode::Tab => Some("tab"),
            KeyCode::Left => Some("left"),
            KeyCode::Right => Some("right"),
            KeyCode::Up => Some("up"),
            KeyCode::Down => Some("down"),
            KeyCode::Home => Some("home"),
            KeyCode::End => Some("end"),
            KeyCode::PageUp => Some("page_up"),
            KeyCode::PageDown => Some("page_down"),
            KeyCode::Henkan => Some("henkan"),
            KeyCode::Muhenkan => Some("muhenkan"),
            KeyCode::KanaMode => Some("kana_mode"),
            KeyCode::HankakuZenkaku => Some("hankaku_zenkaku"),
            KeyCode::CapsLock => Some("caps_lock"),
            KeyCode::F1 => Some("f1"),
            KeyCode::F2 => Some("f2"),
            KeyCode::F3 => Some("f3"),
            KeyCode::F4 => Some("f4"),
            KeyCode::F5 => Some("f5"),
            KeyCode::F6 => Some("f6"),
            KeyCode::F7 => Some("f7"),
            KeyCode::F8 => Some("f8"),
            KeyCode::F9 => Some("f9"),
            KeyCode::F10 => Some("f10"),
            KeyCode::F11 => Some("f11"),
            KeyCode::F12 => Some("f12"),
        }
    }

    /// The key of a name.
    pub open spec fn named(name: Seq<char>) -> Option<KeyCode> {
        if exists|k: KeyCode| #[trigger] k.name_of() == Some(name) {
            Some(choose|k: KeyCode| #[trigger] k.name_of() == Some(name))
        } else {
            None
        }
    }

    /// The key of a name.
    pub fn from_name(name: &str) -> (r: Option<KeyCode>)
        ensures
            r == KeyCode::named(name@),
    {
        let mut i: usize = 0;
        while i < KEY_COUNT
            invariant
                i <= KEY_COUNT,
                forall|k: int| 0 <= k < i ==> (#[trigger] KeyCode::ALL@[k]).name_of() != Some(name@),
            decreases KEY_COUNT - i,
        {
            let code: KeyCode = KeyCode::ALL[i];
            if let Some(text) = code.name() {
                if strings::same_text(text, name) {
                    proof {
                        assert(code.name_of() == Some(name@));
                        let found = choose|k: KeyCode| #[trigger] k.name_of() == Some(name@);
                        lemma_names_differ(code, found);
                    }
                    return Some(code);
                }
            }
            i = i + 1;
        }
        proof {
            assert forall|k: KeyCode| #[trigger] k.name_of() != Some(name@) by {
                lemma_listed(k);
                assert(KeyCode::ALL@[k.number_of() as int].name_of() != Some(name@));
            }
        }
        None
    }

    /// The key at a place in the order.
    pub open spec fn numbered(n: u16) -> Option<KeyCode> {
        if (n as int) < KEY_COUNT {
            Some(KeyCode::ALL@[n as int])
        } else {
            None
        }
    }

    /// The key at a place in the order.
    pub fn from_number(n: u16) -> (r: Option<KeyCode>)
        ensures
            r == KeyCode::numbered(n),
    {
        if (n as usize) < KEY_COUNT {
            Some(KeyCode::ALL[n as usize])
        } else {
            None
        }
    }
}

/// The key at its place in the order.
pub proof fn lemma_listed(code: KeyCode)
    ensures
        (code.number_of() as int) < KEY_COUNT,
        KeyCode::ALL@[code.number_of() as int] == code,
        KeyCode::numbered(code.number_of()) == Some(code),
{
}

/// The key with the name of a signature.
spec fn with_signature(n: int) -> KeyCode {
    if n == 13555997893 {
        KeyCode::Space
    }  else if n == 15300827461 {
        KeyCode::Enter
    }  else if n == 13556824390 {
        KeyCode::Escape
    }  else if n == 13556914313 {
        KeyCode::Backspace
    }  else if n == 13556824326 {
        KeyCode::Delete
    }  else if n == 13153344771 {
        KeyCode::Tab
    }  else if n == 15569263364 {
        KeyCode::Left
    }  else if n == 15569263749 {
        KeyCode::Right
    }  else if n == 15032393026 {
        KeyCode::Up
    }  else if n == 14763956484 {
        KeyCode::Down
    }  else if n == 13555997188 {
        KeyCode::Home
    }  else if n == 13421779267 {
        KeyCode::End
    }  else if n == 15033351175 {
        KeyCode::PageUp
    }  else if n == 14764776457 {
        KeyCode::PageDown
    }  else if n == 14764857862 {
        KeyCode::Henkan
    }  else if n == 14764833608 {
        KeyCode::Muhenkan
    }  else if n == 13556890313 {
        KeyCode::KanaMode
    }  else if n == 15819700751 {
        KeyCode::HankakuZenkaku
    }  else if n == 14362187977 {
        KeyCode::CapsLock
    }  else if n == 6576675202 {
        KeyCode::F1
    }  else if n == 6710892930 {
        KeyCode::F2
    }  else if n == 6845110658 {
        KeyCode::F3
    }  else if n == 6979328386 {
        KeyCode::F4
    }  else if n == 7113546114 {
        KeyCode::F5
    }  else if n == 7247763842 {
        KeyCode::F6
    }  else if n == 7381981570 {
        KeyCode::F7
    }  else if n == 7516199298 {
        KeyCode::F8
    }  else if n == 7650417026 {
        KeyCode::F9
    }  else if n == 6442457475 {
        KeyCode::F10
    }  else if n == 6576675203 {
        KeyCode::F11
    }  else if n == 6710892931 {
        KeyCode::F12
    } else {
        KeyCode::Unknown
    }
}

proof fn lemma_signature(code: KeyCode)
    requires
        code.name_of() is Some,
    ensures
        with_signature(strings::signature(code.name_of()->0)) == code,
{
    match code {
        KeyCode::Unknown => {},
        KeyCode::Char => {},
        KeyCode::Space => {
            reveal_strlit("space");
        },
        KeyCode::Enter => {
            reveal_strlit("enter");
        },
        KeyCode::Escape => {
            reveal_strlit("escape");
        },
        KeyCode::Backspace => {
            reveal_strlit("backspace");
        },
        KeyCode::Delete => {
            reveal_strlit("delete");
        },
        KeyCode::Tab => {
            reveal_strlit("tab");
        },
        KeyCode::Left => {
            reveal_strlit("left");
        },
        KeyCode::Right => {
            reveal_strlit("right");
        },
        KeyCode::Up => {
            reveal_strlit("up");
        },
        KeyCode::Down => {
            reveal_strlit("down");
        },
        KeyCode::Home => {
            reveal_strlit("home");
        },
        KeyCode::End => {
            reveal_strlit("end");
        },
        KeyCode::PageUp => {
            reveal_strlit("page_up");
        },
        KeyCode::PageDown => {
            reveal_strlit("page_down");
        },
        KeyCode::Henkan => {
            reveal_strlit("henkan");
        },
        KeyCode::Muhenkan => {
            reveal_strlit("muhenkan");
        },
        KeyCode::KanaMode => {
            reveal_strlit("kana_mode");
        },
        KeyCode::HankakuZenkaku => {
            reveal_strlit("hankaku_zenkaku");
        },
        KeyCode::CapsLock => {
            reveal_strlit("caps_lock");
        },
        KeyCode::F1 => {
            reveal_strlit("f1");
        },
        KeyCode::F2 => {
            reveal_strlit("f2");
        },
        KeyCode::F3 => {
            reveal_strlit("f3");
        },
        KeyCode::F4 => {
            reveal_strlit("f4");
        },
        KeyCode::F5 => {
            reveal_strlit("f5");
        },
        KeyCode::F6 => {
            reveal_strlit("f6");
        },
        KeyCode::F7 => {
            reveal_strlit("f7");
        },
        KeyCode::F8 => {
            reveal_strlit("f8");
        },
        KeyCode::F9 => {
            reveal_strlit("f9");
        },
        KeyCode::F10 => {
            reveal_strlit("f10");
        },
        KeyCode::F11 => {
            reveal_strlit("f11");
        },
        KeyCode::F12 => {
            reveal_strlit("f12");
        },
    }
}

/// No two keys have the same name.
pub proof fn lemma_names_differ(a: KeyCode, b: KeyCode)
    requires
        a.name_of() is Some,
        a.name_of() == b.name_of(),
    ensures
        a == b,
{
    lemma_signature(a);
    lemma_signature(b);
}

/// The modifiers that were held, and the locks that were on.
#[derive(Debug, Clone, Copy, PartialEq, Eq, Structural)]
pub struct Modifiers(pub u8);

impl Modifiers {
    pub const NONE: u8 = 0;

    pub const SHIFT: u8 = 1;

    pub const CTRL: u8 = 2;

    pub const ALT: u8 = 4;

    pub const CAPS_LOCK: u8 = 8;

    pub const KANA_LOCK: u8 = 16;

    /// What was held, without the locks.
    pub fn without_locks(self) -> (r: Modifiers)
        ensures
            r == Modifiers(self.0 & 7),
    {
        Modifiers(self.0 & 7)
    }

    /// Whether Shift was held.
    pub fn shift(self) -> (r: bool)
        ensures
            r == (self.0 & Modifiers::SHIFT != 0),
    {
        self.0 & Modifiers::SHIFT != 0
    }

    /// Whether Ctrl was held.
    pub fn ctrl(self) -> (r: bool)
        ensures
            r == (self.0 & Modifiers::CTRL != 0),
    {
        self.0 & Modifiers::CTRL != 0
    }

    /// Whether Alt was held.
    pub fn alt(self) -> (r: bool)
        ensures
            r == (self.0 & Modifiers::ALT != 0),
    {
        self.0 & Modifiers::ALT != 0
    }
}

/// One press of a key.
#[derive(Debug, Clone, Copy, PartialEq, Eq, Structural)]
pub struct KeyInput {
    pub code: KeyCode,
    /// The character that a character key types.
    pub ch: Option<char>,
    pub modifiers: Modifiers,
    /// Whether the press repeats one that was not released.
    pub repeat: bool,
    /// Whether the host only asks what the key would do.
    pub test_only: bool,
}

} // verus!
