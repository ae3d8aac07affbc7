//! The layout of a compiled dictionary image.
//!
//! An image starts with a header, which is followed by a directory of tagged
//! tables and by the tables themselves. All integers are little-endian. Changing
//! a field needs a new format version; adding an optional table does not, because
//! unknown tags are skipped.

use vstd::prelude::*;

verus! {

/// `SKRADIC` and a zero byte.
pub const MAGIC: [u8; 8] = [0x53, 0x4b, 0x52, 0x41, 0x44, 0x49, 0x43, 0x00];

/// The first format version.
pub const VERSION: u16 = 1;

/// The second format version.
pub const VERSION_V2: u16 = 2;

pub const HEADER_LEN: usize = 32;

pub const DIRECTORY_ENTRY_LEN: usize = 16;

pub const MAX_TABLES: usize = 64;

/// The table tag `LOUD`.
pub const TAG_LOUDS: [u8; 4] = [0x4c, 0x4f, 0x55, 0x44];

/// The table tag `NODE`.
pub const TAG_NODES: [u8; 4] = [0x4e, 0x4f, 0x44, 0x45];

/// The table tag `LABL`.
pub const TAG_LABELS: [u8; 4] = [0x4c, 0x41, 0x42, 0x4c];

/// The table tag `ENTR`.
pub const TAG_ENTRIES: [u8; 4] = [0x45, 0x4e, 0x54, 0x52];

/// The table tag `SOFF`.
pub const TAG_SURFACE_OFFSETS: [u8; 4] = [0x53, 0x4f, 0x46, 0x46];

/// The table tag `SURF`.
pub const TAG_SURFACES: [u8; 4] = [0x53, 0x55, 0x52, 0x46];

/// The table tag `AOFF`.
pub const TAG_ANNOTATION_OFFSETS: [u8; 4] = [0x41, 0x4f, 0x46, 0x46];

/// The table tag `ANNO`.
pub const TAG_ANNOTATIONS: [u8; 4] = [0x41, 0x4e, 0x4e, 0x4f];

/// The table tag `AIDX`.
pub const TAG_ANNOTATION_INDEX: [u8; 4] = [0x41, 0x49, 0x44, 0x58];

/// The table tag `MATR`.
pub const TAG_MATRIX: [u8; 4] = [0x4d, 0x41, 0x54, 0x52];

/// The table tag `DIDX`.
pub const TAG_DETAIL_INDEX: [u8; 4] = [0x44, 0x49, 0x44, 0x58];

/// The table tag `DREC`.
pub const TAG_DETAIL_RECORDS: [u8; 4] = [0x44, 0x52, 0x45, 0x43];

/// The table tag `DREL`.
pub const TAG_DETAIL_RELATIONS: [u8; 4] = [0x44, 0x52, 0x45, 0x4c];

/// The table tag `DTOF`.
pub const TAG_DETAIL_TEXT_OFFSETS: [u8; 4] = [0x44, 0x54, 0x4f, 0x46];

/// The table tag `DTXT`.
pub const TAG_DETAIL_TEXT: [u8; 4] = [0x44, 0x54, 0x58, 0x54];

/// The table tag `BNDR`.
pub const TAG_BOUNDARIES: [u8; 4] = [0x42, 0x4e, 0x44, 0x52];

/// The table tag `SKIX`.
pub const TAG_SINGLE_KANJI_INDEX: [u8; 4] = [0x53, 0x4b, 0x49, 0x58];

/// The table tag `SKRD`.
pub const TAG_SINGLE_KANJI_READINGS: [u8; 4] = [0x53, 0x4b, 0x52, 0x44];

/// The table tag `SKCH`.
pub const TAG_SINGLE_KANJI_CHARS: [u8; 4] = [0x53, 0x4b, 0x43, 0x48];

/// The table tag `SKVR`.
pub const TAG_SINGLE_KANJI_VARIANTS: [u8; 4] = [0x53, 0x4b, 0x56, 0x52];

/// `reading_offset: u32`, `char_start: u32`, `reading_len: u16`,
/// `char_count: u16`, sorted by reading bytes.
pub const SINGLE_KANJI_INDEX_LEN: usize = 12;

/// One `u32` scalar value per character.
pub const SINGLE_KANJI_CHAR_LEN: usize = 4;

/// `variant: u32`, `original: u32`, `kind: u8`, three zero bytes, sorted by
/// variant scalar value.
pub const SINGLE_KANJI_VARIANT_LEN: usize = 12;

/// The record sizes of the first version.
pub const NODE_LEN: usize = 16;

pub const ENTRY_LEN: usize = 24;

/// The record sizes of the second version.
pub const NODE_LEN_V2: usize = 16;

pub const ENTRY_LEN_V2: usize = 16;

pub const ANNOTATION_INDEX_LEN_V2: usize = 8;

/// Every so many surfaces the front coding starts afresh.
pub const SURFACE_RESTART_INTERVAL: usize = 16;

/// The annotation id of an entry without one.
pub const NO_ANNOTATION: u32 = 0xffff_ffff;

/// `MSP1`.
pub const MATRIX_MAGIC: [u8; 4] = [0x4d, 0x53, 0x50, 0x31];

pub const MATRIX_HEADER_LEN: usize = 16;

pub const MATRIX_ROW_LEN: usize = 8;

pub const MATRIX_OVERRIDE_LEN: usize = 4;

/// `SBD1`. Boundary rows are byte-aligned, with zero padding bits at the row
/// tail.
pub const BOUNDARY_MAGIC: [u8; 4] = [0x53, 0x42, 0x44, 0x31];

pub const BOUNDARY_HEADER_LEN: usize = 8;

pub const DETAIL_INDEX_LEN: usize = 8;

pub const DETAIL_RECORD_LEN: usize = 16;

pub const DETAIL_RELATION_LEN: usize = 8;

} // verus!
