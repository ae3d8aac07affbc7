//! From typed romaji to kana.
//!
//! A table maps romaji sequences to kana. Its entries are sorted by sequence,
//! which answers the two questions that matching asks - is this an entry, and
//! is it the start of a longer one - with a binary search each.
//!
//! Matching takes the longest match, and backtracks: `n` is a complete entry and
//! also the start of `na`, so it waits to see what comes next and can then give
//! up on the longer reading.

pub mod compile_laws;
pub mod completion;
pub mod completion_laws;
pub mod default_table;
pub mod fsm;
pub mod greedy_laws;
pub mod laws;
pub mod replay;
pub mod shipped_laws;
pub mod table;

pub use completion::{LocalCompletion, LocalCompletionError, LocalCompletionList};
pub use default_table::DEFAULT_TABLE;
pub use fsm::Input;
pub use replay::{ReplayError, ReplayEvent, ReplayEventKind, ReplayTrace};
pub use table::{CompiledEntry, Table, TableError, TableErrorKind};

use vstd::prelude::*;

verus! {

/// The section of a document that the table is read from.
pub const TABLE_SECTION: &'static str = "kana";

/// The longest romaji sequence that an entry may use, and the size of the
/// pending buffer.
pub const MAX_SEQUENCE: usize = 8;

/// The longest raw input that can be replayed.
pub const MAX_REPLAY_RAW_BYTES: usize = 128;

/// The most emissions that one replay can hold.
pub const MAX_REPLAY_EVENTS: usize = 1025;

/// The most output that one replay can hold, in UTF-8 bytes.
pub const MAX_REPLAY_OUTPUT_BYTES: usize = 512;

/// The most completions that are returned for one anomaly.
pub const MAX_LOCAL_COMPLETIONS: usize = 8;

} // verus!
