//! Diagnostics: the texts an error is reported with, the walk along the
//! error chain, and the resolution of an error to line/column context with
//! an excerpt of the offending source.

use vstd::prelude::*;

use crate::ast::{HotlistError, HotlistErrorV, ParseError, ParseErrorV};
use crate::lexer::{nn_run, Tok, TokV};
use crate::parser::{get_line_and_offset, line_start_upto, nl_upto, scanned_upto, LineInfo};
use crate::strutil::dec_str;

verus! {

/// The descriptive text of a token, used in syntax-error reports.
pub open spec fn tok_describe(t: TokV) -> Seq<char> {
    match t {
        TokV::HotlistVersion => "Hotlist version (\"Opera Hotlist version\")"@,
        TokV::Options => "Options (\"Options:\")"@,
        TokV::Encoding => "Encoding (\"encoding\")"@,
        TokV::EncodingVersion => "Encoding version (\"version\")"@,
        TokV::Utf8 => "UTF8 (\"utf8\")"@,
        TokV::Equal => "Equals sign (\"=\")"@,
        TokV::NoteHeader => "Note header (\"#NOTE\")"@,
        TokV::Id => "Numeric ID field (\"ID\")"@,
        TokV::UniqueId => "UUID field (\"UNIQUEID\")"@,
        TokV::Name => "Note body field (\"NAME\")"@,
        TokV::Url => "URL field (\"URL\")"@,
        TokV::Created => "Timestamp field (\"CREATED\")"@,
        TokV::Comma => "Comma (\",\")"@,
        TokV::Expanded => "Expanded (\"EXPANDED\")"@,
        TokV::TrashFolder => "Trash folder (\"TRASH FOLDER\")"@,
        TokV::Yes => "Yes/True (\"YES\")"@,
        TokV::No => "No/False (\"NO\")"@,
        TokV::FolderHeader => "Folder header (\"#FOLDER\")"@,
        TokV::FolderEnd => "End of folder delimiter (\"-\")"@,
        TokV::Active => "Active (\"ACTIVE\")"@,
        TokV::Version(v) => "Version (\""@ + v + "\")"@,
        TokV::Integer(v) => "Integer (\""@ + v + "\")"@,
        TokV::Uuid(v) => "UUID (\""@ + v + "\")"@,
        TokV::UrlBody(v) => "URL (\""@ + v + "\")"@,
        TokV::NoteBody(v) => if v.len() < 80 {
            "Note body (\""@ + v + "\")"@
        } else {
            "Note body (\""@ + v + "\"... [cont])"@
        },
    }
}

impl<'input> Tok<'input> {
    /// The descriptive text of this token.  A long free-text body is
    /// marked as continuing.
    pub fn describe(&self) -> (r: String)
        ensures
            r@ == tok_describe(self@),
    {
        match *self {
            Tok::HotlistVersion => String::from_str("Hotlist version (\"Opera Hotlist version\")"),
            Tok::Options => String::from_str("Options (\"Options:\")"),
            Tok::Encoding => String::from_str("Encoding (\"encoding\")"),
            Tok::EncodingVersion => String::from_str("Encoding version (\"version\")"),
            Tok::Utf8 => String::from_str("UTF8 (\"utf8\")"),
            Tok::Equal => String::from_str("Equals sign (\"=\")"),
            Tok::NoteHeader => String::from_str("Note header (\"#NOTE\")"),
            Tok::Id => String::from_str("Numeric ID field (\"ID\")"),
            Tok::UniqueId => String::from_str("UUID field (\"UNIQUEID\")"),
            Tok::Name => String::from_str("Note body field (\"NAME\")"),
            Tok::Url => String::from_str("URL field (\"URL\")"),
            Tok::Created => String::from_str("Timestamp field (\"CREATED\")"),
            Tok::Comma => String::from_str("Comma (\",\")"),
            Tok::Expanded => String::from_str("Expanded (\"EXPANDED\")"),
            Tok::TrashFolder => String::from_str("Trash folder (\"TRASH FOLDER\")"),
            Tok::Yes => String::from_str("Yes/True (\"YES\")"),
            Tok::No => String::from_str("No/False (\"NO\")"),
            Tok::FolderHeader => String::from_str("Folder header (\"#FOLDER\")"),
            Tok::FolderEnd => String::from_str("End of folder delimiter (\"-\")"),
            Tok::Active => String::from_str("Active (\"ACTIVE\")"),
            Tok::Version(v) => wrap_payload("Version (\"", v, "\")"),
            Tok::Integer(v) => wrap_payload("Integer (\"", v, "\")"),
            Tok::Uuid(v) => wrap_payload("UUID (\"", v, "\")"),
            Tok::UrlBody(v) => wrap_payload("URL (\"", v, "\")"),
            Tok::NoteBody(v) => {
                if v.unicode_len() < 80 {
                    wrap_payload("Note body (\"", v, "\")")
                } else {
                    wrap_payload("Note body (\"", v, "\"... [cont])")
                }
            },
        }
    }
}

fn prefix_payload(pre: &str, v: &str) -> (r: String)
    ensures
        r@ == pre@ + v@,
{
    let mut s = String::from_str(pre);
    s.append(v);
    proof {
        assert(s@ =~= pre@ + v@);
    }
    s
}

fn wrap_payload(pre: &str, v: &str, post: &str) -> (r: String)
    ensures
        r@ == pre@ + v@ + post@,
{
    let mut s = String::from_str(pre);
    s.append(v);
    s.append(post);
    proof {
        assert(s@ =~= pre@ + v@ + post@);
    }
    s
}

/// The report text of a field-validation failure.
pub open spec fn hotlist_error_message(e: HotlistErrorV) -> Seq<char> {
    match e {
        HotlistErrorV::RequiredFieldMissing(f, _) => "required field missing: "@ + f,
        HotlistErrorV::IntegerOutOfRange(l) => "integer out of 32-bit unsigned range: "@ + l,
        HotlistErrorV::InvalidUuid(l) => "invalid UUID: "@ + l,
        HotlistErrorV::InvalidUrl(l) => "invalid URL: "@ + l,
    }
}

impl HotlistError {
    /// The report text of this failure.
    pub fn message(&self) -> (r: String)
        ensures
            r@ == hotlist_error_message(self@),
    {
        match self {
            HotlistError::RequiredFieldMissing(f, _) => prefix_payload("required field missing: ", f.as_str()),
            HotlistError::IntegerOutOfRange(l) => prefix_payload("integer out of 32-bit unsigned range: ", l.as_str()),
            HotlistError::InvalidUuid(l) => prefix_payload("invalid UUID: ", l.as_str()),
            HotlistError::InvalidUrl(l) => prefix_payload("invalid URL: ", l.as_str()),
        }
    }
}

/// The report text of a parse failure: the deepest message of the chain.
pub open spec fn parse_error_message(e: ParseErrorV) -> Seq<char> {
    match e {
        ParseErrorV::Lexical { offset } => "unknown token starting at offset "@ + dec_str(
            offset as nat,
        ),
        ParseErrorV::UnexpectedToken { start, end } => "unexpected token starting at offset "@
            + dec_str(start as nat),
        ParseErrorV::UnexpectedEof { offset } => "unexpected end of input at offset "@ + dec_str(
            offset as nat,
        ),
        ParseErrorV::Validation(h) => hotlist_error_message(h),
    }
}

impl ParseError {
    /// The inner field-validation failure this error wraps, if any: the
    /// "caused by" link of the chain, deepest first.
    pub fn cause(&self) -> (r: Option<&HotlistError>)
        ensures
            match r {
                Option::Some(h) => self@ == ParseErrorV::Validation(h@),
                Option::None => !(self@ is Validation),
            },
    {
        match self {
            ParseError::Validation(h) => Option::Some(h),
            _ => Option::None,
        }
    }

    /// The report text of this failure, taken from the deepest link of the
    /// error chain.
    pub fn message(&self) -> (r: String)
        ensures
            r@ == parse_error_message(self@),
    {
        match self {
            ParseError::Lexical { offset } => {
                let mut s = String::from_str("unknown token starting at offset ");
                let d = crate::strutil::u64_to_string(*offset as u64);
                s.append(d.as_str());
                proof {
                    assert(s@ =~= parse_error_message(self@));
                }
                s
            },
            ParseError::UnexpectedToken { start, end } => {
                let mut s = String::from_str("unexpected token starting at offset ");
                let d = crate::strutil::u64_to_string(*start as u64);
                s.append(d.as_str());
                proof {
                    assert(s@ =~= parse_error_message(self@));
                }
                s
            },
            ParseError::UnexpectedEof { offset } => {
                let mut s = String::from_str("unexpected end of input at offset ");
                let d = crate::strutil::u64_to_string(*offset as u64);
                s.append(d.as_str());
                proof {
                    assert(s@ =~= parse_error_message(self@));
                }
                s
            },
            ParseError::Validation(h) => h.message(),
        }
    }
}

/// Located context for a reported failure: where it begins, and an excerpt
/// of the source to reproduce.
#[derive(Debug, PartialEq, Eq)]
pub struct ErrorContext {
    pub line: LineInfo,
    pub excerpt: String,
}

/// The line of text beginning at `start`, the trailing newline included,
/// as a re-reading of the source from a failure offset shows it.
pub open spec fn line_excerpt_at(s: Seq<char>, start: int) -> Seq<char> {
    let e = start + nn_run(s, start);
    if e < s.len() {
        s.subrange(start, e + 1)
    } else {
        s.subrange(start, s.len() as int)
    }
}

fn excerpt_line(input: &str, start: usize) -> (r: String)
    requires
        start <= input@.len(),
    ensures
        r@ == line_excerpt_at(input@, start as int),
{
    let len = input.unicode_len();
    let e = crate::lexer::scan_non_newline(input, start);
    let stop = if e < len {
        e + 1
    } else {
        e
    };
    let t = input.substring_char(start, stop);
    String::from_str(t)
}

/// Whether `li` is the 1-based line and in-line offset that one scan of
/// the text resolves the character offset `o` to.
pub open spec fn located_at(s: Seq<char>, o: int, li: LineInfo) -> bool {
    &&& li.line == 1 + nl_upto(s, scanned_upto(s, o))
    &&& li.offset == {
        let cur = line_start_upto(s, scanned_upto(s, o));
        if cur <= o {
            o + 1 - cur
        } else {
            0
        }
    }
}

/// Resolves a parse failure against the source text it arose from: the
/// 1-based line and column where it begins, and the source excerpt to show
/// (the offending line, or the whole malformed block when its span is
/// known).  Offsets beyond the text are clamped to its end.
pub fn error_context(input: &str, err: &ParseError) -> (r: ErrorContext)
    requires
        input@.len() < usize::MAX,
    ensures
        ({
            let s = input@;
            match err@ {
                ParseErrorV::Lexical { offset } => {
                    let o = if offset <= s.len() {
                        offset
                    } else {
                        s.len() as int
                    };
                    &&& located_at(s, o, r.line)
                    &&& r.excerpt@ == line_excerpt_at(s, o)
                },
                ParseErrorV::UnexpectedToken { start, end } => {
                    let o = if start <= s.len() {
                        start
                    } else {
                        s.len() as int
                    };
                    &&& located_at(s, o, r.line)
                    &&& r.excerpt@ == line_excerpt_at(s, o)
                },
                ParseErrorV::UnexpectedEof { offset } => {
                    let o = if offset <= s.len() {
                        offset
                    } else {
                        s.len() as int
                    };
                    &&& located_at(s, o, r.line)
                    &&& r.excerpt@ == line_excerpt_at(s, o)
                },
                ParseErrorV::Validation(h) => match h {
                    HotlistErrorV::RequiredFieldMissing(_, span) => {
                        let lo = if span.entry.0 <= s.len() {
                            span.entry.0 as int
                        } else {
                            s.len() as int
                        };
                        let hi = if span.entry.1 <= s.len() {
                            span.entry.1 as int
                        } else {
                            s.len() as int
                        };
                        &&& located_at(s, lo, r.line)
                        &&& r.excerpt@ == (if lo <= hi {
                            s.subrange(lo, hi)
                        } else {
                            Seq::<char>::empty()
                        })
                    },
                    _ => located_at(s, 0, r.line) && r.excerpt@ == Seq::<char>::empty(),
                },
            }
        }),
{
    let len = input.unicode_len();
    match err {
        ParseError::Lexical { offset } => {
            let o = if *offset <= len {
                *offset
            } else {
                len
            };
            let li = get_line_and_offset(input, o);
            ErrorContext { line: li, excerpt: excerpt_line(input, o) }
        },
        ParseError::UnexpectedToken { start, end: _ } => {
            let o = if *start <= len {
                *start
            } else {
                len
            };
            let li = get_line_and_offset(input, o);
            ErrorContext { line: li, excerpt: excerpt_line(input, o) }
        },
        ParseError::UnexpectedEof { offset } => {
            let o = if *offset <= len {
                *offset
            } else {
                len
            };
            let li = get_line_and_offset(input, o);
            ErrorContext { line: li, excerpt: excerpt_line(input, o) }
        },
        ParseError::Validation(h) => match h {
            HotlistError::RequiredFieldMissing(_, span) => {
                let lo = if span.entry.0 <= len {
                    span.entry.0
                } else {
                    len
                };
                let hi = if span.entry.1 <= len {
                    span.entry.1
                } else {
                    len
                };
                let li = get_line_and_offset(input, lo);
                let ex = if lo <= hi {
                    String::from_str(input.substring_char(lo, hi))
                } else {
                    String::new()
                };
                ErrorContext { line: li, excerpt: ex }
            },
            _ => {
                let li = get_line_and_offset(input, 0);
                ErrorContext { line: li, excerpt: String::new() }
            },
        },
    }
}

} // verus!
