//! Which key does what.
//!
//! Two key maps are shipped, and a document of the user's own can be laid over one
//! of them. What a key means depends on what the composition is doing, so a binding
//! is found by its scope, its key and its modifiers. The scope is one state or all
//! of them; a binding for the state goes before one for all. Modifiers have to match
//! exactly, but the locks of the keyboard do not count.

pub mod binding_laws;
pub mod bindings;
pub mod key_spec;
pub mod laws;

pub mod presets;
pub mod shipped_laws;
pub mod vocabulary;

pub use bindings::KeyMap;
pub use presets::{ATOK_PRESET, MS_IME_PRESET};
pub use vocabulary::{Action, Preset, State, UNBOUND};

use crate::config::ParseError;
use crate::strings;
use vstd::prelude::*;

verus! {

/// Why a key map could not be compiled.
#[derive(Debug, PartialEq, Eq)]
pub struct KeyMapError {
    /// The section at fault, where the fault belongs to one.
    pub section: Option<String>,
    /// The key at fault, where the fault belongs to one.
    pub key: Option<String>,
    pub kind: KeyMapErrorKind,
}

/// The fault of a key map.
#[derive(Debug, Clone, Copy, PartialEq, Eq, Structural)]
pub enum KeyMapErrorKind {
    /// The document could not be read.
    Config(ParseError),
    /// A section that is neither for every state nor for one.
    UnknownSection,
    /// A key map without bindings.
    EmptyKeyMap,
    /// A key that is not known.
    UnknownKey,
    /// A modifier that is not `shift`, `ctrl` or `alt`.
    UnknownModifier,
    /// A name that is neither an action nor [`UNBOUND`].
    UnknownAction,
    /// A list where the name of one action belongs.
    MalformedValue,
    /// A key that the section binds twice.
    DuplicateBinding,
}

impl KeyMapErrorKind {
    /// The text that describes the fault.
    pub open spec fn text_of(self) -> Seq<char> {
        match self {
            KeyMapErrorKind::Config(error) => error.text_of(),
            KeyMapErrorKind::UnknownSection => "not a key map section; expected global or a state"@,
            KeyMapErrorKind::EmptyKeyMap => "the key map is empty"@,
            KeyMapErrorKind::UnknownKey => "not a key this IME can bind"@,
            KeyMapErrorKind::UnknownModifier => "not a modifier"@,
            KeyMapErrorKind::UnknownAction => "not an action"@,
            KeyMapErrorKind::MalformedValue => "value must be a single action name"@,
            KeyMapErrorKind::DuplicateBinding => "key is bound twice in this section"@,
        }
    }

    /// The text that describes the fault.
    pub fn message(&self) -> (s: String)
        ensures
            s@ == self.text_of(),
    {
        match self {
            KeyMapErrorKind::Config(error) => error.message(),
            KeyMapErrorKind::UnknownSection => "not a key map section; expected global or a state".to_owned(),
            KeyMapErrorKind::EmptyKeyMap => "the key map is empty".to_owned(),
            KeyMapErrorKind::UnknownKey => "not a key this IME can bind".to_owned(),
            KeyMapErrorKind::UnknownModifier => "not a modifier".to_owned(),
            KeyMapErrorKind::UnknownAction => "not an action".to_owned(),
            KeyMapErrorKind::MalformedValue => "value must be a single action name".to_owned(),
            KeyMapErrorKind::DuplicateBinding => "key is bound twice in this section".to_owned(),
        }
    }
}

impl Clone for KeyMapError {
    fn clone(&self) -> (r: Self)
        ensures
            r.view() == self.view(),
    {
        let section: Option<String> = match &self.section {
            Some(s) => Some(s.clone()),
            None => None,
        };
        let key: Option<String> = match &self.key {
            Some(s) => Some(s.clone()),
            None => None,
        };
        KeyMapError { section, key, kind: self.kind }
    }
}

impl KeyMapError {
    /// The text that describes the fault, with its section and its key.
    pub open spec fn text_of(&self) -> Seq<char> {
        let section = match self.section {
            Some(s) => "["@ + s@ + "] "@,
            None => Seq::<char>::empty(),
        };
        let key = match self.key {
            Some(s) => strings::debug_form(s@) + ": "@,
            None => Seq::<char>::empty(),
        };
        section + key + self.kind.text_of()
    }

    /// The text that describes the fault, with its section and its key.
    pub fn message(&self) -> (s: String)
        ensures
            s@ == self.text_of(),
    {
        let mut s: String = String::new();
        if let Some(section) = &self.section {
            s.append("[");
            s.append(section.as_str());
            s.append("] ");
        }
        if let Some(key) = &self.key {
            s.append(strings::debug_text(key.as_str()).as_str());
            s.append(": ");
        }
        s.append(self.kind.message().as_str());
        assert(s@ =~= self.text_of());
        s
    }
}

/// A document that could not be read is no key map.
impl From<ParseError> for KeyMapError {
    fn from(error: ParseError) -> (r: Self) {
        KeyMapError { section: None, key: None, kind: KeyMapErrorKind::Config(error) }
    }
}

impl vstd::std_specs::convert::FromSpecImpl<ParseError> for KeyMapError {
    open spec fn obeys_from_spec() -> bool {
        true
    }

    open spec fn from_spec(error: ParseError) -> Self {
        KeyMapError { section: None, key: None, kind: KeyMapErrorKind::Config(error) }
    }
}

} // verus!
