//! Borrowed views over a compiled dictionary image.
//!
//! Parsing never copies a table: every lookup reads fixed-width little-endian
//! records from the slice that holds the image. [`image`] states what an image
//! is; [`Dictionary::parse`] accepts exactly those byte strings.

pub mod image;
pub mod image_format;
pub mod model;
pub mod raw;
mod detail;
pub mod laws;
pub mod layout_laws;
mod lookup;
mod louds;
mod parse;
pub mod search_laws;
mod surfaces;
pub mod text_laws;
mod validate;
pub mod walk_laws;
pub mod walks;

use crate::strings;
use vstd::prelude::*;

verus! {

/// How a detail's relation points at another word.
#[derive(Debug, Clone, Copy, PartialEq, Eq, Structural)]
pub enum DetailRelationKind {
    Alias,
    Related,
    Synonym,
    Antonym,
}

impl DetailRelationKind {
    /// The kind stored as `value`.
    pub open spec fn of_byte(value: u8) -> Option<DetailRelationKind> {
        if value == 1 {
            Some(DetailRelationKind::Alias)
        } else if value == 2 {
            Some(DetailRelationKind::Related)
        } else if value == 3 {
            Some(DetailRelationKind::Synonym)
        } else if value == 4 {
            Some(DetailRelationKind::Antonym)
        } else {
            None
        }
    }

    pub fn from_byte(value: u8) -> (r: Option<Self>)
        ensures
            r == Self::of_byte(value),
    {
        match value {
            1 => Some(Self::Alias),
            2 => Some(Self::Related),
            3 => Some(Self::Synonym),
            4 => Some(Self::Antonym),
            _ => None,
        }
    }
}

/// How a single kanji relates to the character it is a variant of.
///
/// Zero is no code, so that a zeroed record never decodes as a kind.
#[derive(Debug, Clone, Copy, PartialEq, Eq, PartialOrd, Ord, Hash, Structural)]
pub enum SingleKanjiVariantKind {
    /// A variant form of the same character.
    Itaiji,
    /// The form that the printing standard prescribes.
    PrintStandard,
    /// The simplified form conventional in print.
    SimplifiedConventional,
    /// The form from before the reform.
    OldForm,
    /// An abbreviated form.
    Abbreviated,
    /// The orthodox form.
    OrthodoxForm,
    /// A popular form outside the standard.
    PopularForm,
    /// A distinct character used interchangeably.
    DistinctCharacter,
    /// The original form.
    OriginalForm,
}

impl SingleKanjiVariantKind {
    /// The stored code of a kind.
    pub open spec fn code_of(self) -> u8 {
        match self {
            SingleKanjiVariantKind::Itaiji => 1,
            SingleKanjiVariantKind::PrintStandard => 2,
            SingleKanjiVariantKind::SimplifiedConventional => 3,
            SingleKanjiVariantKind::OldForm => 4,
            SingleKanjiVariantKind::Abbreviated => 5,
            SingleKanjiVariantKind::OrthodoxForm => 6,
            SingleKanjiVariantKind::PopularForm => 7,
            SingleKanjiVariantKind::DistinctCharacter => 8,
            SingleKanjiVariantKind::OriginalForm => 9,
        }
    }

    /// The kind that is stored as `code`.
    pub open spec fn of_code(code: u8) -> Option<SingleKanjiVariantKind> {
        if exists|kind: SingleKanjiVariantKind| #[trigger] kind.code_of() == code {
            Some(choose|kind: SingleKanjiVariantKind| #[trigger] kind.code_of() == code)
        } else {
            None
        }
    }

    /// The Japanese term shown to the reader.
    pub open spec fn label_of(self) -> Seq<char> {
        match self {
            SingleKanjiVariantKind::Itaiji => "異体字"@,
            SingleKanjiVariantKind::PrintStandard => "印刷標準字体"@,
            SingleKanjiVariantKind::SimplifiedConventional => "簡易慣用字体"@,
            SingleKanjiVariantKind::OldForm => "旧字体"@,
            SingleKanjiVariantKind::Abbreviated => "略字"@,
            SingleKanjiVariantKind::OrthodoxForm => "正字"@,
            SingleKanjiVariantKind::PopularForm => "俗字"@,
            SingleKanjiVariantKind::DistinctCharacter => "別字"@,
            SingleKanjiVariantKind::OriginalForm => "本字"@,
        }
    }

    /// The Japanese term shown to the reader.
    pub fn label(self) -> (label: &'static str)
        ensures
            label@ == self.label_of(),
    {
        match self {
            Self::Itaiji => "異体字",
            Self::PrintStandard => "印刷標準字体",
            Self::SimplifiedConventional => "簡易慣用字体",
            Self::OldForm => "旧字体",
            Self::Abbreviated => "略字",
            Self::OrthodoxForm => "正字",
            Self::PopularForm => "俗字",
            Self::DistinctCharacter => "別字",
            Self::OriginalForm => "本字",
        }
    }

    /// The stored code.
    pub fn code(self) -> (code: u8)
        ensures
            code == self.code_of(),
    {
        match self {
            Self::Itaiji => 1,
            Self::PrintStandard => 2,
            Self::SimplifiedConventional => 3,
            Self::OldForm => 4,
            Self::Abbreviated => 5,
            Self::OrthodoxForm => 6,
            Self::PopularForm => 7,
            Self::DistinctCharacter => 8,
            Self::OriginalForm => 9,
        }
    }

    /// Decodes a stored code; zero and unknown values are no kind.
    pub fn from_code(code: u8) -> (r: Option<Self>)
        ensures
            r == Self::of_code(code),
            r is Some <==> 1 <= code <= 9,
            r matches Some(kind) ==> kind.code_of() == code,
    {
        let r = match code {
            1 => Some(Self::Itaiji),
            2 => Some(Self::PrintStandard),
            3 => Some(Self::SimplifiedConventional),
            4 => Some(Self::OldForm),
            5 => Some(Self::Abbreviated),
            6 => Some(Self::OrthodoxForm),
            7 => Some(Self::PopularForm),
            8 => Some(Self::DistinctCharacter),
            9 => Some(Self::OriginalForm),
            _ => None,
        };
        proof {
            if let Some(kind) = r {
                assert(kind.code_of() == code);
            }
        }
        r
    }
}

/// A malformed or unsupported dictionary image.
#[derive(Debug, Clone, Copy, PartialEq, Eq)]
pub enum Error {
    Truncated,
    BadMagic,
    UnsupportedVersion(u16),
    BadHeader,
    BadDirectory,
    MissingTable([u8; 4]),
    DuplicateTable([u8; 4]),
    BadTable([u8; 4]),
    BadTree,
    BadEntry,
    BadUtf8,
    TextOverflow,
}

impl Error {
    /// The text that describes the fault.
    pub open spec fn text_of(self) -> Seq<char> {
        match self {
            Error::Truncated => "truncated dictionary image"@,
            Error::BadMagic => "bad dictionary magic"@,
            Error::UnsupportedVersion(version) => "unsupported dictionary version "@
                + strings::decimal(version as nat),
            Error::BadHeader => "invalid dictionary header"@,
            Error::BadDirectory => "invalid dictionary table directory"@,
            Error::MissingTable(tag) => "missing dictionary table "@ + tag_text(tag@),
            Error::DuplicateTable(tag) => "duplicate dictionary table "@ + tag_text(tag@),
            Error::BadTable(tag) => "invalid dictionary table "@ + tag_text(tag@),
            Error::BadTree => "invalid dictionary LOUDS tree"@,
            Error::BadEntry => "invalid dictionary entry"@,
            Error::BadUtf8 => "invalid UTF-8 in dictionary text"@,
            Error::TextOverflow => "dictionary text exceeds the fixed output bound"@,
        }
    }

    /// The text that describes the fault.
    pub fn message(&self) -> (s: String)
        ensures
            s@ == self.text_of(),
    {
        match *self {
            Error::Truncated => "truncated dictionary image".to_owned(),
            Error::BadMagic => "bad dictionary magic".to_owned(),
            Error::UnsupportedVersion(version) => {
                let mut s = "unsupported dictionary version ".to_owned();
                strings::push_decimal(&mut s, version as u64);
                s
            },
            Error::BadHeader => "invalid dictionary header".to_owned(),
            Error::BadDirectory => "invalid dictionary table directory".to_owned(),
            Error::MissingTable(tag) => tagged("missing dictionary table ", tag),
            Error::DuplicateTable(tag) => tagged("duplicate dictionary table ", tag),
            Error::BadTable(tag) => tagged("invalid dictionary table ", tag),
            Error::BadTree => "invalid dictionary LOUDS tree".to_owned(),
            Error::BadEntry => "invalid dictionary entry".to_owned(),
            Error::BadUtf8 => "invalid UTF-8 in dictionary text".to_owned(),
            Error::TextOverflow => "dictionary text exceeds the fixed output bound".to_owned(),
        }
    }
}

/// A tag as text: its visible ASCII characters, and `?` for any other byte.
pub open spec fn tag_text(tag: Seq<u8>) -> Seq<char> {
    tag.map_values(
        |byte: u8|
            if 0x21 <= byte <= 0x7e {
                byte as char
            } else {
                '?'
            },
    )
}

/// A text that ends with a tag.
fn tagged(head: &str, tag: [u8; 4]) -> (s: String)
    ensures
        s@ == head@ + tag_text(tag@),
{
    let mut s = head.to_owned();
    let mut i: usize = 0;
    while i < 4
        invariant
            i <= 4,
            s@ == head@ + tag_text(tag@).take(i as int),
        decreases 4 - i,
    {
        let byte: u8 = tag[i];
        let c: char = if 0x21 <= byte && byte <= 0x7e {
            byte as char
        } else {
            '?'
        };
        strings::push_char(&mut s, c);
        assert(tag_text(tag@).take(i + 1) =~= tag_text(tag@).take(i as int).push(c));
        i = i + 1;
    }
    assert(tag_text(tag@).take(4) =~= tag_text(tag@));
    s
}

/// Domain and prediction metadata of an entry.
#[derive(Debug, Clone, Copy, PartialEq, Eq, Structural)]
pub struct EntryFlags(pub u16);

impl EntryFlags {
    /// No flag.
    pub fn none() -> (flags: Self)
        ensures
            flags == EntryFlags(0),
    {
        EntryFlags(0)
    }

    /// A word of information technology.
    pub fn it() -> (flags: Self)
        ensures
            flags == EntryFlags(1),
    {
        EntryFlags(1)
    }

    /// A word that may be predicted.
    pub fn prediction() -> (flags: Self)
        ensures
            flags == EntryFlags(2),
    {
        EntryFlags(2)
    }

    /// A corrected spelling.
    pub fn spelling_correction() -> (flags: Self)
        ensures
            flags == EntryFlags(4),
    {
        EntryFlags(4)
    }

    /// A fragment that is valid after other text but must not begin an
    /// independent conversion.
    pub fn non_initial() -> (flags: Self)
        ensures
            flags == EntryFlags(8),
    {
        EntryFlags(8)
    }

    pub fn from_bits(bits: u16) -> (flags: Self)
        ensures
            flags == EntryFlags(bits),
    {
        EntryFlags(bits)
    }

    pub fn bits(self) -> (bits: u16)
        ensures
            bits == self.0,
    {
        self.0
    }

    /// Whether every flag of `other` is set.
    pub open spec fn has(self, other: EntryFlags) -> bool {
        self.0 & other.0 == other.0
    }

    /// Whether every flag of `other` is set.
    pub fn contains(self, other: Self) -> (r: bool)
        ensures
            r == self.has(other),
    {
        self.0 & other.0 == other.0
    }
}

/// The flags of both.
impl std::ops::BitOr<EntryFlags> for EntryFlags {
    type Output = EntryFlags;

    fn bitor(self, other: EntryFlags) -> (flags: EntryFlags) {
        EntryFlags(self.0 | other.0)
    }
}

impl vstd::std_specs::ops::BitOrSpecImpl<EntryFlags> for EntryFlags {
    open spec fn obeys_bitor_spec() -> bool {
        true
    }

    open spec fn bitor_req(self, other: EntryFlags) -> bool {
        true
    }

    open spec fn bitor_spec(self, other: EntryFlags) -> EntryFlags {
        EntryFlags(self.0 | other.0)
    }
}

impl Default for EntryFlags {
    fn default() -> (flags: Self)
        ensures
            flags == EntryFlags(0),
    {
        EntryFlags(0)
    }
}

/// One dictionary value. Text remains an offset into the image until it is
/// written into a sink.
#[derive(Debug, Clone, Copy, PartialEq, Eq, Structural)]
pub struct Entry {
    pub surface_id: u32,
    pub left_id: u16,
    pub right_id: u16,
    pub word_cost: i32,
    /// `i32::MAX` for an entry that is not worth predicting.
    pub prediction_cost: i32,
    pub flags: EntryFlags,
    /// An annotation id in the first version; in the second the entry's own
    /// ordinal, by which the annotation index is searched.
    pub annotation_locator: u32,
}

impl Default for Entry {
    fn default() -> (entry: Self)
        ensures
            entry == (Entry {
                surface_id: 0,
                left_id: 0,
                right_id: 0,
                word_cost: 0,
                prediction_cost: 0,
                flags: EntryFlags(0),
                annotation_locator: image_format::NO_ANNOTATION,
            }),
    {
        Entry {
            surface_id: 0,
            left_id: 0,
            right_id: 0,
            word_cost: 0,
            prediction_cost: 0,
            flags: EntryFlags(0),
            annotation_locator: image_format::NO_ANNOTATION,
        }
    }
}

/// One dictionary value whose reading is a prefix of the query.
#[derive(Debug, Clone, Copy, PartialEq, Eq, Structural)]
pub struct PrefixMatch {
    /// The UTF-8 length of the matched prefix.
    pub matched_bytes: usize,
    /// The ordinal of the entry in the image.
    pub entry_index: usize,
    pub entry: Entry,
}

/// A single kanji's relation to the character it varies from.
#[derive(Debug, Clone, Copy, PartialEq, Eq, Structural)]
pub struct SingleKanjiVariant {
    /// The character that the variant points at.
    pub original: char,
    pub kind: SingleKanjiVariantKind,
}

/// The version of an image.
#[derive(Debug, Clone, Copy, PartialEq, Eq, Structural)]
enum ImageVersion {
    V1,
    V2,
}

impl ImageVersion {
    fn node_len(self) -> (n: usize)
        ensures
            n == image_format::NODE_LEN,
    {
        match self {
            Self::V1 => image_format::NODE_LEN,
            Self::V2 => image_format::NODE_LEN_V2,
        }
    }

    fn entry_len(self) -> (n: usize)
        ensures
            n == image::entry_len(self is V2),
    {
        match self {
            Self::V1 => image_format::ENTRY_LEN,
            Self::V2 => image_format::ENTRY_LEN_V2,
        }
    }
}

/// One table of the directory.
#[derive(Clone, Copy)]
struct Table<'a> {
    tag: [u8; 4],
    bytes: &'a [u8],
    count: usize,
}

impl<'a> Table<'a> {
    spec fn view(&self) -> image::TableView {
        image::TableView { bytes: self.bytes@, count: self.count as int }
    }
}

/// The tables of reviewed details.
#[derive(Debug, Clone, Copy)]
struct Details<'a> {
    index: &'a [u8],
    index_count: usize,
    records: &'a [u8],
    record_count: usize,
    relations: &'a [u8],
    relation_count: usize,
    text_offsets: &'a [u8],
    text_count: usize,
    text: &'a [u8],
}

impl<'a> Details<'a> {
    spec fn view(&self) -> image::DetailsView {
        image::DetailsView {
            index: self.index@,
            index_count: self.index_count as int,
            records: self.records@,
            record_count: self.record_count as int,
            relations: self.relations@,
            relation_count: self.relation_count as int,
            text_offsets: self.text_offsets@,
            text_count: self.text_count as int,
            text: self.text@,
        }
    }
}

/// The details of one entry.
#[derive(Debug, Clone, Copy)]
pub struct DictionaryDetail<'a> {
    details: Details<'a>,
    record_index: usize,
}

/// The tables of single kanji.
#[derive(Debug, Clone, Copy)]
struct SingleKanji<'a> {
    index: &'a [u8],
    index_count: usize,
    readings: &'a [u8],
    chars: &'a [u8],
    char_count: usize,
    variants: &'a [u8],
    variant_count: usize,
}

impl<'a> SingleKanji<'a> {
    spec fn view(&self) -> image::SingleKanjiView {
        image::SingleKanjiView {
            index: self.index@,
            index_count: self.index_count as int,
            readings: self.readings@,
            chars: self.chars@,
            char_count: self.char_count as int,
            variants: self.variants@,
            variant_count: self.variant_count as int,
        }
    }
}

/// The tables of one image, borrowed from it.
#[derive(Debug, Clone, Copy)]
pub struct Dictionary<'a> {
    version: ImageVersion,
    class_count: usize,
    entry_count: usize,
    node_count: usize,
    louds: &'a [u8],
    louds_bits: usize,
    nodes: &'a [u8],
    labels: &'a [u8],
    entries: &'a [u8],
    surface_offsets: &'a [u8],
    surface_count: usize,
    surfaces: &'a [u8],
    annotation_offsets: &'a [u8],
    annotation_count: usize,
    annotations: &'a [u8],
    annotation_index: Option<&'a [u8]>,
    annotation_index_count: usize,
    matrix: &'a [u8],
    /// The boundary rows without the header of their table.
    boundaries: Option<&'a [u8]>,
    details: Option<Details<'a>>,
    single_kanji: Option<SingleKanji<'a>>,
}

impl<'a> View for Dictionary<'a> {
    type V = image::ImageView;

    closed spec fn view(&self) -> image::ImageView {
        image::ImageView {
            v2: self.version is V2,
            class_count: self.class_count as int,
            entry_count: self.entry_count as int,
            node_count: self.node_count as int,
            louds: self.louds@,
            louds_bits: self.louds_bits as int,
            nodes: self.nodes@,
            labels: self.labels@,
            entries: self.entries@,
            surface_offsets: self.surface_offsets@,
            surface_count: self.surface_count as int,
            surfaces: self.surfaces@,
            annotation_offsets: self.annotation_offsets@,
            annotation_count: self.annotation_count as int,
            annotations: self.annotations@,
            annotation_index: match self.annotation_index {
                Some(bytes) => Some(bytes@),
                None => None,
            },
            annotation_index_count: self.annotation_index_count as int,
            matrix: self.matrix@,
            boundaries: match self.boundaries {
                Some(bytes) => Some(bytes@),
                None => None,
            },
            details: match self.details {
                Some(details) => Some(details.view()),
                None => None,
            },
            single_kanji: match self.single_kanji {
                Some(table) => Some(table.view()),
                None => None,
            },
        }
    }
}

impl<'a> Dictionary<'a> {
    pub fn class_count(&self) -> (n: usize)
        ensures
            n == self@.class_count,
    {
        self.class_count
    }

    pub fn entry_count(&self) -> (n: usize)
        ensures
            n == self@.entry_count,
    {
        self.entry_count
    }

    pub fn node_count(&self) -> (n: usize)
        ensures
            n == self@.node_count,
    {
        self.node_count
    }

    /// Whether the image has the optional boundary table.
    pub fn has_bunsetsu_boundaries(&self) -> (r: bool)
        ensures
            r == self@.boundaries is Some,
    {
        self.boundaries.is_some()
    }
}

/// A text record located by an offsets table.
fn text_record<'b>(offsets: &'b [u8], count: usize, data: &'b [u8], index: usize) -> (r: Result<
    &'b [u8],
    Error,
>)
    ensures
        match image::text_record(offsets@, count as int, data@, index as int) {
            Some(record) => r matches Ok(bytes) && bytes@ == record,
            None => r matches Err(e) && e == Error::BadEntry,
        },
{
    if index >= count {
        return Err(Error::BadEntry);
    }
    let Some(start) = raw::read_offset(offsets, index) else {
        return Err(Error::BadEntry);
    };
    let end: usize = if index + 1 < count {
        let Some(next) = raw::read_offset(offsets, index + 1) else {
            return Err(Error::BadEntry);
        };
        next
    } else {
        data.len()
    };
    if start > end || end > data.len() {
        return Err(Error::BadEntry);
    }
    Ok(vstd::slice::slice_subrange(data, start, end))
}

} // verus!
