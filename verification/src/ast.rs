//! The document tree built by a successful parse, together with the
//! mathematical views that the contracts of the lexer, the parser and the
//! traversal engine are stated over.

use vstd::prelude::*;

verus! {

/// A two-component numeric version, e.g. `2.0`.
///
/// A bare numeral such as `3` denotes `3.0`.
#[derive(Debug, Clone, Copy, PartialEq, Eq, Structural)]
pub struct Version {
    pub major: u64,
    pub minor: u64,
}

/// Half-open offset ranges into the source text attached to certain errors.
///
/// `entry` always covers the whole malformed record or block; `error`, when
/// present, pinpoints the failing token.  Offsets count characters from the
/// start of the source.
#[derive(Debug, Clone, Copy, PartialEq, Eq)]
pub struct SpanInfo {
    pub error: Option<(usize, usize)>,
    pub entry: (usize, usize),
}

/// The source text encoding announced in the options block.
#[derive(Debug, Clone, Copy, PartialEq, Eq, Structural)]
pub enum Encoding {
    Utf8(Version),
}

/// One `key = value` assignment of the options block.
#[derive(Debug, Clone, Copy, PartialEq, Eq, Structural)]
pub enum SingleOp {
    Encoding(Encoding),
}

/// The options block of the header.  A repeated `encoding` assignment is
/// resolved in favour of the last occurrence.
#[derive(Debug, Clone, Copy, PartialEq, Eq, Structural)]
pub struct Options {
    pub encoding: Encoding,
}

/// A note: a leaf of the document tree.
///
/// `contents` may embed the two-character soft-break marker `\x02\x02`,
/// which is kept verbatim; `url`, when present, holds the parsed URL in its
/// serialized form.  `timestamp` is in seconds since the Unix epoch, UTC.
#[derive(Debug, PartialEq)]
pub struct Note {
    pub id: u32,
    pub uuid: u128,
    pub contents: Option<String>,
    pub url: Option<String>,
    pub timestamp: u32,
    pub active: bool,
}

/// A folder: an inner node of the document tree owning an ordered sequence
/// of children.
#[derive(Debug, PartialEq)]
pub struct Folder {
    pub id: u32,
    pub uuid: u128,
    pub name: String,
    pub timestamp: u32,
    pub trash: bool,
    pub expanded: bool,
    pub entries: Vec<EntryKind>,
}

/// An entry of the tree: a folder or a note.
#[derive(Debug, PartialEq)]
pub enum EntryKind {
    Folder(Folder),
    Note(Note),
}

/// The root document parsed from one input.  Entries keep source order.
#[derive(Debug, PartialEq)]
pub struct Hotlist {
    pub version: Version,
    pub options: Options,
    pub entries: Vec<EntryKind>,
}

/// A field-validation failure, fatal to the enclosing record.
#[derive(Debug, PartialEq, Eq)]
pub enum HotlistError {
    /// A required field never appeared; carries the field name and the span
    /// of the enclosing record or block.
    RequiredFieldMissing(String, SpanInfo),
    /// An integer field does not fit in 32 unsigned bits; carries the literal.
    IntegerOutOfRange(String),
    /// A UUID literal is not exactly 32 hexadecimal digits; carries the literal.
    InvalidUuid(String),
    /// A URL literal was rejected by the URL parser; carries the literal.
    InvalidUrl(String),
}

/// Any failure of a parse, one variant per layer of the taxonomy.
///
/// `Validation` is the explicit "caused by" link to the inner
/// field-validation failure.
#[derive(Debug, PartialEq, Eq)]
pub enum ParseError {
    /// An unrecognized character sequence beginning at `offset`.
    Lexical { offset: usize },
    /// A token that no grammar rule expected, spanning `start..end`.
    UnexpectedToken { start: usize, end: usize },
    /// The input ended where the grammar demanded more; `offset` is the end
    /// of the input.
    UnexpectedEof { offset: usize },
    /// A field-validation failure bubbled up from record construction.
    Validation(HotlistError),
}

impl From<HotlistError> for ParseError {
    fn from(error: HotlistError) -> (r: ParseError) {
        ParseError::Validation(error)
    }
}

impl vstd::std_specs::convert::FromSpecImpl<HotlistError> for ParseError {
    open spec fn obeys_from_spec() -> bool {
        true
    }

    open spec fn from_spec(error: HotlistError) -> ParseError {
        ParseError::Validation(error)
    }
}

/// Mathematical view of a note.
pub struct NoteV {
    pub id: u32,
    pub uuid: u128,
    pub contents: Option<Seq<char>>,
    pub url: Option<Seq<char>>,
    pub timestamp: u32,
    pub active: bool,
}

/// Mathematical view of a folder.
pub struct FolderV {
    pub id: u32,
    pub uuid: u128,
    pub name: Seq<char>,
    pub timestamp: u32,
    pub trash: bool,
    pub expanded: bool,
    pub entries: Seq<EntryV>,
}

/// Mathematical view of an entry.
pub enum EntryV {
    Folder(FolderV),
    Note(NoteV),
}

/// Mathematical view of a whole document.
pub struct HotlistV {
    pub version: Version,
    pub options: Options,
    pub entries: Seq<EntryV>,
}

/// Mathematical view of a field-validation failure.
pub enum HotlistErrorV {
    RequiredFieldMissing(Seq<char>, SpanInfo),
    IntegerOutOfRange(Seq<char>),
    InvalidUuid(Seq<char>),
    InvalidUrl(Seq<char>),
}

/// Mathematical view of a parse failure.
pub enum ParseErrorV {
    Lexical { offset: int },
    UnexpectedToken { start: int, end: int },
    UnexpectedEof { offset: int },
    Validation(HotlistErrorV),
}

pub open spec fn opt_str_view(s: Option<String>) -> Option<Seq<char>> {
    match s {
        Option::Some(t) => Option::Some(t@),
        Option::None => Option::None,
    }
}

pub open spec fn note_view(n: Note) -> NoteV {
    NoteV {
        id: n.id,
        uuid: n.uuid,
        contents: opt_str_view(n.contents),
        url: opt_str_view(n.url),
        timestamp: n.timestamp,
        active: n.active,
    }
}

pub open spec fn folder_view(f: Folder) -> FolderV
    decreases f,
{
    FolderV {
        id: f.id,
        uuid: f.uuid,
        name: f.name@,
        timestamp: f.timestamp,
        trash: f.trash,
        expanded: f.expanded,
        entries: Seq::new(
            f.entries@.len(),
            |i: int|
                if 0 <= i < f.entries@.len() {
                    entry_view(f.entries@[i])
                } else {
                    EntryV::Note(vstd::pervasive::arbitrary())
                },
        ),
    }
}

pub open spec fn entry_view(e: EntryKind) -> EntryV
    decreases e,
{
    match e {
        EntryKind::Folder(f) => EntryV::Folder(folder_view(f)),
        EntryKind::Note(n) => EntryV::Note(note_view(n)),
    }
}

pub open spec fn entries_view(es: Seq<EntryKind>) -> Seq<EntryV> {
    Seq::new(
        es.len(),
        |i: int|
            if 0 <= i < es.len() {
                entry_view(es[i])
            } else {
                EntryV::Note(vstd::pervasive::arbitrary())
            },
    )
}

impl View for Note {
    type V = NoteV;

    open spec fn view(&self) -> NoteV {
        note_view(*self)
    }
}

impl View for Folder {
    type V = FolderV;

    open spec fn view(&self) -> FolderV {
        folder_view(*self)
    }
}

impl View for EntryKind {
    type V = EntryV;

    open spec fn view(&self) -> EntryV {
        entry_view(*self)
    }
}

impl View for Hotlist {
    type V = HotlistV;

    open spec fn view(&self) -> HotlistV {
        HotlistV {
            version: self.version,
            options: self.options,
            entries: entries_view(self.entries@),
        }
    }
}

pub open spec fn hotlist_error_view(e: HotlistError) -> HotlistErrorV {
    match e {
        HotlistError::RequiredFieldMissing(f, s) => HotlistErrorV::RequiredFieldMissing(f@, s),
        HotlistError::IntegerOutOfRange(l) => HotlistErrorV::IntegerOutOfRange(l@),
        HotlistError::InvalidUuid(l) => HotlistErrorV::InvalidUuid(l@),
        HotlistError::InvalidUrl(l) => HotlistErrorV::InvalidUrl(l@),
    }
}

impl View for HotlistError {
    type V = HotlistErrorV;

    open spec fn view(&self) -> HotlistErrorV {
        hotlist_error_view(*self)
    }
}

impl View for ParseError {
    type V = ParseErrorV;

    open spec fn view(&self) -> ParseErrorV {
        match *self {
            ParseError::Lexical { offset } => ParseErrorV::Lexical { offset: offset as int },
            ParseError::UnexpectedToken { start, end } => ParseErrorV::UnexpectedToken {
                start: start as int,
                end: end as int,
            },
            ParseError::UnexpectedEof { offset } => ParseErrorV::UnexpectedEof {
                offset: offset as int,
            },
            ParseError::Validation(h) => ParseErrorV::Validation(h@),
        }
    }
}

} // verus!
