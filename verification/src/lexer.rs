//! The mode-switching lexical analyzer: raw text to located tokens.
//!
//! Tokenization is by maximal munch over a table of fixed literals and four
//! character-class patterns (unsigned integer, two-component version, hex
//! UUID, restricted URL body), longest match first; a literal beats a
//! pattern of the same length, and among patterns an integer beats a
//! version, a version a UUID, a UUID a URL body.  One piece of state makes
//! the analysis context-sensitive: after `NAME`, the next `=` switches the
//! lexer into a body mode that consumes everything up to the next newline
//! as one free-text token (a trailing carriage return is stripped).
//!
//! Offsets count characters from the start of the input; for ASCII input
//! they coincide with byte offsets.

use vstd::prelude::*;

use crate::ast::ParseError;
use crate::strutil::{is_digit, is_upper_hex};

verus! {

/// One token of the Hotlist grammar.
#[derive(Debug, Clone, Copy)]
pub enum Tok<'input> {
    /// The literal `Opera Hotlist version`.
    HotlistVersion,
    /// The literal `Options:`.
    Options,
    /// The literal `encoding`.
    Encoding,
    /// The literal `version`.
    EncodingVersion,
    /// The literal `utf8`.
    Utf8,
    /// The literal `=`.
    Equal,
    /// The literal `#NOTE`.
    NoteHeader,
    /// The literal `ID`.
    Id,
    /// The literal `UNIQUEID`.
    UniqueId,
    /// The literal `NAME`.
    Name,
    /// The literal `URL`.
    Url,
    /// The literal `CREATED`.
    Created,
    /// The literal `,`.
    Comma,
    /// The literal `EXPANDED`.
    Expanded,
    /// The literal `TRASH FOLDER`.
    TrashFolder,
    /// The literal `YES`.
    Yes,
    /// The literal `NO`.
    No,
    /// The literal `#FOLDER`.
    FolderHeader,
    /// The literal `-`.
    FolderEnd,
    /// The literal `ACTIVE`.
    Active,
    /// A two-component numeric version such as `2.0`.
    Version(&'input str),
    /// A run of decimal digits.
    Integer(&'input str),
    /// A run of upper-case hexadecimal digits.
    Uuid(&'input str),
    /// A restricted-charset URL beginning with `http`.
    UrlBody(&'input str),
    /// Free text consumed in body mode, up to the end of the line.
    NoteBody(&'input str),
}

/// Mathematical view of a token.
pub enum TokV {
    HotlistVersion,
    Options,
    Encoding,
    EncodingVersion,
    Utf8,
    Equal,
    NoteHeader,
    Id,
    UniqueId,
    Name,
    Url,
    Created,
    Comma,
    Expanded,
    TrashFolder,
    Yes,
    No,
    FolderHeader,
    FolderEnd,
    Active,
    Version(Seq<char>),
    Integer(Seq<char>),
    Uuid(Seq<char>),
    UrlBody(Seq<char>),
    NoteBody(Seq<char>),
}

impl<'input> View for Tok<'input> {
    type V = TokV;

    open spec fn view(&self) -> TokV {
        match *self {
            Tok::HotlistVersion => TokV::HotlistVersion,
            Tok::Options => TokV::Options,
            Tok::Encoding => TokV::Encoding,
            Tok::EncodingVersion => TokV::EncodingVersion,
            Tok::Utf8 => TokV::Utf8,
            Tok::Equal => TokV::Equal,
            Tok::NoteHeader => TokV::NoteHeader,
            Tok::Id => TokV::Id,
            Tok::UniqueId => TokV::UniqueId,
            Tok::Name => TokV::Name,
            Tok::Url => TokV::Url,
            Tok::Created => TokV::Created,
            Tok::Comma => TokV::Comma,
            Tok::Expanded => TokV::Expanded,
            Tok::TrashFolder => TokV::TrashFolder,
            Tok::Yes => TokV::Yes,
            Tok::No => TokV::No,
            Tok::FolderHeader => TokV::FolderHeader,
            Tok::FolderEnd => TokV::FolderEnd,
            Tok::Active => TokV::Active,
            Tok::Version(s) => TokV::Version(s@),
            Tok::Integer(s) => TokV::Integer(s@),
            Tok::Uuid(s) => TokV::Uuid(s@),
            Tok::UrlBody(s) => TokV::UrlBody(s@),
            Tok::NoteBody(s) => TokV::NoteBody(s@),
        }
    }
}

/// A token together with the half-open offset range it was read from.
#[derive(Debug, Clone, Copy)]
pub struct SpannedTok<'input> {
    pub start: usize,
    pub tok: Tok<'input>,
    pub end: usize,
}

/// Mathematical view of a located token.
pub struct STokV {
    pub start: int,
    pub tok: TokV,
    pub end: int,
}

impl<'input> View for SpannedTok<'input> {
    type V = STokV;

    open spec fn view(&self) -> STokV {
        STokV { start: self.start as int, tok: self.tok@, end: self.end as int }
    }
}

// ---------------------------------------------------------------------------
// Character classes and maximal runs
// ---------------------------------------------------------------------------

pub open spec fn is_ws(c: char) -> bool {
    c == ' ' || c == '\t' || c == '\n' || c == '\r'
}

pub open spec fn is_ascii_alnum(c: char) -> bool {
    is_digit(c) || ('a' <= c && c <= 'z') || ('A' <= c && c <= 'Z')
}

/// The URL characters consumed verbatim; percent-escapes are handled apart.
pub open spec fn is_url_char(c: char) -> bool {
    ||| is_ascii_alnum(c)
    ||| c == ':'
    ||| c == '/'
    ||| c == '.'
    ||| c == '-'
    ||| c == '~'
    ||| c == '_'
    ||| c == '#'
    ||| c == '$'
    ||| c == ','
    ||| c == ';'
    ||| c == '('
    ||| c == ')'
    ||| c == '\''
    ||| c == '?'
    ||| c == '['
    ||| c == ']'
    ||| c == '@'
    ||| c == '!'
    ||| c == '&'
    ||| c == '*'
    ||| c == '+'
    ||| c == '='
}

pub open spec fn ws_run(s: Seq<char>, p: int) -> int
    decreases s.len() - p,
{
    if 0 <= p < s.len() && is_ws(s[p]) {
        1 + ws_run(s, p + 1)
    } else {
        0
    }
}

pub open spec fn digit_run(s: Seq<char>, p: int) -> int
    decreases s.len() - p,
{
    if 0 <= p < s.len() && is_digit(s[p]) {
        1 + digit_run(s, p + 1)
    } else {
        0
    }
}

pub open spec fn hex_run(s: Seq<char>, p: int) -> int
    decreases s.len() - p,
{
    if 0 <= p < s.len() && is_upper_hex(s[p]) {
        1 + hex_run(s, p + 1)
    } else {
        0
    }
}

/// The run of characters other than a newline, for body mode.
pub open spec fn nn_run(s: Seq<char>, p: int) -> int
    decreases s.len() - p,
{
    if 0 <= p < s.len() && s[p] != '\n' {
        1 + nn_run(s, p + 1)
    } else {
        0
    }
}

/// The maximal run of URL characters and two-digit percent-escapes.
pub open spec fn url_run(s: Seq<char>, p: int) -> int
    decreases s.len() - p,
{
    if 0 <= p < s.len() && is_url_char(s[p]) {
        1 + url_run(s, p + 1)
    } else if 0 <= p && p + 2 < s.len() && s[p] == '%' && is_upper_hex(s[p + 1]) && is_upper_hex(
        s[p + 2],
    ) {
        3 + url_run(s, p + 3)
    } else {
        0
    }
}

/// The length a version token would have at `p`: digits, optionally a dot
/// followed by at least one digit and then more digits.
pub open spec fn version_len(s: Seq<char>, p: int) -> int {
    let d1 = digit_run(s, p);
    if d1 == 0 {
        0
    } else {
        let q = p + d1;
        if q + 1 < s.len() && s[q] == '.' && is_digit(s[q + 1]) {
            d1 + 2 + digit_run(s, q + 2)
        } else {
            d1
        }
    }
}

/// The length a URL token would have at `p`: the prefix `http` and at
/// least one more URL character or escape.
pub open spec fn url_len(s: Seq<char>, p: int) -> int {
    if 0 <= p && p + 4 <= s.len() && s[p] == 'h' && s[p + 1] == 't' && s[p + 2] == 't' && s[p + 3]
        == 'p' {
        let r = url_run(s, p + 4);
        if r >= 1 {
            4 + r
        } else {
            0
        }
    } else {
        0
    }
}

pub proof fn lemma_ws_run_bounds(s: Seq<char>, p: int)
    requires
        0 <= p <= s.len(),
    ensures
        0 <= ws_run(s, p),
        p + ws_run(s, p) <= s.len(),
    decreases s.len() - p,
{
    if p < s.len() && is_ws(s[p]) {
        lemma_ws_run_bounds(s, p + 1);
    }
}

pub proof fn lemma_digit_run_bounds(s: Seq<char>, p: int)
    requires
        0 <= p <= s.len(),
    ensures
        0 <= digit_run(s, p),
        p + digit_run(s, p) <= s.len(),
    decreases s.len() - p,
{
    if p < s.len() && is_digit(s[p]) {
        lemma_digit_run_bounds(s, p + 1);
    }
}

pub proof fn lemma_hex_run_bounds(s: Seq<char>, p: int)
    requires
        0 <= p <= s.len(),
    ensures
        0 <= hex_run(s, p),
        p + hex_run(s, p) <= s.len(),
    decreases s.len() - p,
{
    if p < s.len() && is_upper_hex(s[p]) {
        lemma_hex_run_bounds(s, p + 1);
    }
}

pub proof fn lemma_nn_run_bounds(s: Seq<char>, p: int)
    requires
        0 <= p <= s.len(),
    ensures
        0 <= nn_run(s, p),
        p + nn_run(s, p) <= s.len(),
    decreases s.len() - p,
{
    if p < s.len() && s[p] != '\n' {
        lemma_nn_run_bounds(s, p + 1);
    }
}

pub proof fn lemma_url_run_bounds(s: Seq<char>, p: int)
    requires
        0 <= p <= s.len(),
    ensures
        0 <= url_run(s, p),
        p + url_run(s, p) <= s.len(),
    decreases s.len() - p,
{
    if p < s.len() && is_url_char(s[p]) {
        lemma_url_run_bounds(s, p + 1);
    } else if p + 2 < s.len() && s[p] == '%' && is_upper_hex(s[p + 1]) && is_upper_hex(s[p + 2]) {
        lemma_url_run_bounds(s, p + 3);
    }
}

/// Every character of a digit run is a digit, and the run is maximal.
pub proof fn lemma_digit_run_chars(s: Seq<char>, p: int)
    requires
        0 <= p <= s.len(),
    ensures
        forall|i: int| p <= i < p + digit_run(s, p) ==> is_digit(s[i]),
        p + digit_run(s, p) < s.len() ==> !is_digit(s[p + digit_run(s, p)]),
    decreases s.len() - p,
{
    if p < s.len() && is_digit(s[p]) {
        lemma_digit_run_chars(s, p + 1);
    }
}

/// Every character of a hex run is a hex digit, and the run is maximal.
pub proof fn lemma_hex_run_chars(s: Seq<char>, p: int)
    requires
        0 <= p <= s.len(),
    ensures
        forall|i: int| p <= i < p + hex_run(s, p) ==> is_upper_hex(s[i]),
        p + hex_run(s, p) < s.len() ==> !is_upper_hex(s[p + hex_run(s, p)]),
    decreases s.len() - p,
{
    if p < s.len() && is_upper_hex(s[p]) {
        lemma_hex_run_chars(s, p + 1);
    }
}

/// No character of a body run is a newline, and the run is maximal.
pub proof fn lemma_nn_run_chars(s: Seq<char>, p: int)
    requires
        0 <= p <= s.len(),
    ensures
        forall|i: int| p <= i < p + nn_run(s, p) ==> s[i] != '\n',
        p + nn_run(s, p) < s.len() ==> s[p + nn_run(s, p)] == '\n',
    decreases s.len() - p,
{
    if p < s.len() && s[p] != '\n' {
        lemma_nn_run_chars(s, p + 1);
    }
}

// ---------------------------------------------------------------------------
// Executable scanners, each equal to its run function
// ---------------------------------------------------------------------------

fn scan_ws(s: &str, p: usize) -> (r: usize)
    requires
        p <= s@.len(),
    ensures
        p <= r,
        r == p + ws_run(s@, p as int),
        r <= s@.len(),
{
    let len = s.unicode_len();
    let mut i: usize = p;
    while i < len
        invariant
            p <= i <= len,
            len == s@.len(),
            ws_run(s@, p as int) == (i - p) + ws_run(s@, i as int),
        decreases len - i,
    {
        let c = s.get_char(i);
        if !(c == ' ' || c == '\t' || c == '\n' || c == '\r') {
            proof {
                assert(ws_run(s@, i as int) == 0);
            }
            return i;
        }
        proof {
            assert(ws_run(s@, i as int) == 1 + ws_run(s@, i as int + 1));
        }
        i = i + 1;
    }
    proof {
        assert(ws_run(s@, i as int) == 0);
    }
    i
}

pub fn scan_digits(s: &str, p: usize) -> (r: usize)
    requires
        p <= s@.len(),
    ensures
        p <= r,
        r == p + digit_run(s@, p as int),
        r <= s@.len(),
{
    let len = s.unicode_len();
    let mut i: usize = p;
    while i < len
        invariant
            p <= i <= len,
            len == s@.len(),
            digit_run(s@, p as int) == (i - p) + digit_run(s@, i as int),
        decreases len - i,
    {
        let c = s.get_char(i);
        if !(c >= '0' && c <= '9') {
            proof {
                assert(digit_run(s@, i as int) == 0);
            }
            return i;
        }
        proof {
            assert(digit_run(s@, i as int) == 1 + digit_run(s@, i as int + 1));
        }
        i = i + 1;
    }
    proof {
        assert(digit_run(s@, i as int) == 0);
    }
    i
}

fn scan_hex(s: &str, p: usize) -> (r: usize)
    requires
        p <= s@.len(),
    ensures
        p <= r,
        r == p + hex_run(s@, p as int),
        r <= s@.len(),
{
    let len = s.unicode_len();
    let mut i: usize = p;
    while i < len
        invariant
            p <= i <= len,
            len == s@.len(),
            hex_run(s@, p as int) == (i - p) + hex_run(s@, i as int),
        decreases len - i,
    {
        let c = s.get_char(i);
        if !((c >= '0' && c <= '9') || (c >= 'A' && c <= 'F')) {
            proof {
                assert(hex_run(s@, i as int) == 0);
            }
            return i;
        }
        proof {
            assert(hex_run(s@, i as int) == 1 + hex_run(s@, i as int + 1));
        }
        i = i + 1;
    }
    proof {
        assert(hex_run(s@, i as int) == 0);
    }
    i
}

pub fn scan_non_newline(s: &str, p: usize) -> (r: usize)
    requires
        p <= s@.len(),
    ensures
        p <= r,
        r == p + nn_run(s@, p as int),
        r <= s@.len(),
{
    let len = s.unicode_len();
    let mut i: usize = p;
    while i < len
        invariant
            p <= i <= len,
            len == s@.len(),
            nn_run(s@, p as int) == (i - p) + nn_run(s@, i as int),
        decreases len - i,
    {
        let c = s.get_char(i);
        if c == '\n' {
            proof {
                assert(nn_run(s@, i as int) == 0);
            }
            return i;
        }
        proof {
            assert(nn_run(s@, i as int) == 1 + nn_run(s@, i as int + 1));
        }
        i = i + 1;
    }
    proof {
        assert(nn_run(s@, i as int) == 0);
    }
    i
}

fn is_url_char_exec(c: char) -> (r: bool)
    ensures
        r == is_url_char(c),
{
    (c >= '0' && c <= '9') || (c >= 'a' && c <= 'z') || (c >= 'A' && c <= 'Z') || c == ':' || c
        == '/' || c == '.' || c == '-' || c == '~' || c == '_' || c == '#' || c == '$' || c == ','
        || c == ';' || c == '(' || c == ')' || c == '\'' || c == '?' || c == '[' || c == ']' || c
        == '@' || c == '!' || c == '&' || c == '*' || c == '+' || c == '='
}

fn scan_url_body(s: &str, p: usize) -> (r: usize)
    requires
        p <= s@.len(),
    ensures
        p <= r,
        r == p + url_run(s@, p as int),
        r <= s@.len(),
{
    let len = s.unicode_len();
    let mut i: usize = p;
    loop
        invariant
            p <= i <= len,
            len == s@.len(),
            url_run(s@, p as int) == (i - p) + url_run(s@, i as int),
        decreases len - i,
    {
        if i < len && is_url_char_exec(s.get_char(i)) {
            proof {
                assert(url_run(s@, i as int) == 1 + url_run(s@, i as int + 1));
            }
            i = i + 1;
        } else if len >= 3 && i < len - 2 && s.get_char(i) == '%' && {
            let c1 = s.get_char(i + 1);
            (c1 >= '0' && c1 <= '9') || (c1 >= 'A' && c1 <= 'F')
        } && {
            let c2 = s.get_char(i + 2);
            (c2 >= '0' && c2 <= '9') || (c2 >= 'A' && c2 <= 'F')
        } {
            proof {
                assert(url_run(s@, i as int) == 3 + url_run(s@, i as int + 3));
            }
            i = i + 3;
        } else {
            proof {
                assert(url_run(s@, i as int) == 0);
            }
            return i;
        }
    }
}

// Whether the literal `lit` occurs at offset `p` of `s`.
pub open spec fn lit_match(s: Seq<char>, p: int, lit: Seq<char>) -> bool {
    &&& 0 <= p
    &&& p + lit.len() <= s.len()
    &&& s.subrange(p, p + lit.len()) == lit
}

fn match_lit(s: &str, p: usize, lit: &str) -> (r: bool)
    requires
        p <= s@.len(),
    ensures
        r == lit_match(s@, p as int, lit@),
{
    let slen = s.unicode_len();
    let llen = lit.unicode_len();
    if llen > slen - p {
        return false;
    }
    let mut i: usize = 0;
    while i < llen
        invariant
            0 <= i <= llen,
            llen == lit@.len(),
            slen == s@.len(),
            p + llen <= slen,
            forall|k: int| 0 <= k < i ==> s@[p + k] == lit@[k],
        decreases llen - i,
    {
        if s.get_char(p + i) != lit.get_char(i) {
            proof {
                assert(s@.subrange(p as int, p + llen as int)[i as int] == s@[p + i]);
            }
            return false;
        }
        i = i + 1;
    }
    proof {
        assert(s@.subrange(p as int, p + llen as int) =~= lit@);
    }
    true
}

// ---------------------------------------------------------------------------
// Token selection
// ---------------------------------------------------------------------------

/// The longest fixed literal that occurs at `p`, with its length.
pub open spec fn lit_best(s: Seq<char>, p: int) -> Option<(TokV, int)> {
    if lit_match(s, p, "Opera Hotlist version"@) {
        Option::Some((TokV::HotlistVersion, "Opera Hotlist version"@.len() as int))
    } else if lit_match(s, p, "TRASH FOLDER"@) {
        Option::Some((TokV::TrashFolder, "TRASH FOLDER"@.len() as int))
    } else if lit_match(s, p, "Options:"@) {
        Option::Some((TokV::Options, "Options:"@.len() as int))
    } else if lit_match(s, p, "encoding"@) {
        Option::Some((TokV::Encoding, "encoding"@.len() as int))
    } else if lit_match(s, p, "UNIQUEID"@) {
        Option::Some((TokV::UniqueId, "UNIQUEID"@.len() as int))
    } else if lit_match(s, p, "EXPANDED"@) {
        Option::Some((TokV::Expanded, "EXPANDED"@.len() as int))
    } else if lit_match(s, p, "version"@) {
        Option::Some((TokV::EncodingVersion, "version"@.len() as int))
    } else if lit_match(s, p, "CREATED"@) {
        Option::Some((TokV::Created, "CREATED"@.len() as int))
    } else if lit_match(s, p, "#FOLDER"@) {
        Option::Some((TokV::FolderHeader, "#FOLDER"@.len() as int))
    } else if lit_match(s, p, "ACTIVE"@) {
        Option::Some((TokV::Active, "ACTIVE"@.len() as int))
    } else if lit_match(s, p, "#NOTE"@) {
        Option::Some((TokV::NoteHeader, "#NOTE"@.len() as int))
    } else if lit_match(s, p, "utf8"@) {
        Option::Some((TokV::Utf8, "utf8"@.len() as int))
    } else if lit_match(s, p, "NAME"@) {
        Option::Some((TokV::Name, "NAME"@.len() as int))
    } else if lit_match(s, p, "URL"@) {
        Option::Some((TokV::Url, "URL"@.len() as int))
    } else if lit_match(s, p, "YES"@) {
        Option::Some((TokV::Yes, "YES"@.len() as int))
    } else if lit_match(s, p, "ID"@) {
        Option::Some((TokV::Id, "ID"@.len() as int))
    } else if lit_match(s, p, "NO"@) {
        Option::Some((TokV::No, "NO"@.len() as int))
    } else if lit_match(s, p, "="@) {
        Option::Some((TokV::Equal, "="@.len() as int))
    } else if lit_match(s, p, ","@) {
        Option::Some((TokV::Comma, ","@.len() as int))
    } else if lit_match(s, p, "-"@) {
        Option::Some((TokV::FolderEnd, "-"@.len() as int))
    } else {
        Option::None
    }
}

fn lit_best_exec<'i>(s: &'i str, p: usize) -> (r: Option<(Tok<'i>, usize)>)
    requires
        p <= s@.len(),
    ensures
        r is Some ==> lit_best(s@, p as int) == Option::Some(((r->0).0@, (r->0).1 as int)),
        r is None ==> lit_best(s@, p as int) is None,
        r is Some ==> 1 <= (r->0).1 && p + (r->0).1 <= s@.len(),
{
    proof {
        reveal_strlit("Opera Hotlist version");
        reveal_strlit("TRASH FOLDER");
        reveal_strlit("Options:");
        reveal_strlit("encoding");
        reveal_strlit("UNIQUEID");
        reveal_strlit("EXPANDED");
        reveal_strlit("version");
        reveal_strlit("CREATED");
        reveal_strlit("#FOLDER");
        reveal_strlit("ACTIVE");
        reveal_strlit("#NOTE");
        reveal_strlit("utf8");
        reveal_strlit("NAME");
        reveal_strlit("URL");
        reveal_strlit("YES");
        reveal_strlit("ID");
        reveal_strlit("NO");
        reveal_strlit("=");
        reveal_strlit(",");
        reveal_strlit("-");
    }
    if match_lit(s, p, "Opera Hotlist version") {
        Option::Some((Tok::HotlistVersion, 21))
    } else if match_lit(s, p, "TRASH FOLDER") {
        Option::Some((Tok::TrashFolder, 12))
    } else if match_lit(s, p, "Options:") {
        Option::Some((Tok::Options, 8))
    } else if match_lit(s, p, "encoding") {
        Option::Some((Tok::Encoding, 8))
    } else if match_lit(s, p, "UNIQUEID") {
        Option::Some((Tok::UniqueId, 8))
    } else if match_lit(s, p, "EXPANDED") {
        Option::Some((Tok::Expanded, 8))
    } else if match_lit(s, p, "version") {
        Option::Some((Tok::EncodingVersion, 7))
    } else if match_lit(s, p, "CREATED") {
        Option::Some((Tok::Created, 7))
    } else if match_lit(s, p, "#FOLDER") {
        Option::Some((Tok::FolderHeader, 7))
    } else if match_lit(s, p, "ACTIVE") {
        Option::Some((Tok::Active, 6))
    } else if match_lit(s, p, "#NOTE") {
        Option::Some((Tok::NoteHeader, 5))
    } else if match_lit(s, p, "utf8") {
        Option::Some((Tok::Utf8, 4))
    } else if match_lit(s, p, "NAME") {
        Option::Some((Tok::Name, 4))
    } else if match_lit(s, p, "URL") {
        Option::Some((Tok::Url, 3))
    } else if match_lit(s, p, "YES") {
        Option::Some((Tok::Yes, 3))
    } else if match_lit(s, p, "ID") {
        Option::Some((Tok::Id, 2))
    } else if match_lit(s, p, "NO") {
        Option::Some((Tok::No, 2))
    } else if match_lit(s, p, "=") {
        Option::Some((Tok::Equal, 1))
    } else if match_lit(s, p, ",") {
        Option::Some((Tok::Comma, 1))
    } else if match_lit(s, p, "-") {
        Option::Some((Tok::FolderEnd, 1))
    } else {
        Option::None
    }
}

fn version_len_exec(s: &str, p: usize) -> (r: usize)
    requires
        p <= s@.len(),
    ensures
        r == version_len(s@, p as int),
        p + r <= s@.len(),
{
    let len = s.unicode_len();
    let d1 = scan_digits(s, p) - p;
    if d1 == 0 {
        return 0;
    }
    let q = p + d1;
    if len >= 2 && q < len - 1 && s.get_char(q) == '.' && {
        let c = s.get_char(q + 1);
        c >= '0' && c <= '9'
    } {
        let d2 = scan_digits(s, q + 2) - (q + 2);
        d1 + 2 + d2
    } else {
        d1
    }
}

fn url_len_exec(s: &str, p: usize) -> (r: usize)
    requires
        p <= s@.len(),
    ensures
        r == url_len(s@, p as int),
        p + r <= s@.len(),
{
    let len = s.unicode_len();
    if len >= 4 && p <= len - 4 && s.get_char(p) == 'h' && s.get_char(p + 1) == 't' && s.get_char(
        p + 2,
    ) == 't' && s.get_char(p + 3) == 'p' {
        let e = scan_url_body(s, p + 4);
        if e > p + 4 {
            e - p
        } else {
            0
        }
    } else {
        0
    }
}

pub open spec fn max2(a: int, b: int) -> int {
    if a >= b {
        a
    } else {
        b
    }
}

/// Mathematical view of the lexer's state: the current offset, whether a
/// `NAME` keyword has been seen, and whether body mode is active.
pub struct LexStV {
    pub pos: int,
    pub in_name: bool,
    pub body: bool,
}

/// The outcome of one lexing step.
pub enum StepV {
    Tok(STokV, LexStV),
    Eof,
    Fail(int),
}

/// One step of the lexer: the next token, end of input, or a lexical
/// failure with the offset where it begins.
pub open spec fn spec_step(s: Seq<char>, st: LexStV) -> StepV {
    if st.body {
        let nl = st.pos + nn_run(s, st.pos);
        if nl >= s.len() {
            StepV::Fail(st.pos)
        } else {
            let te = if nl > st.pos && s[nl - 1] == '\r' {
                nl - 1
            } else {
                nl
            };
            StepV::Tok(
                STokV { start: st.pos, tok: TokV::NoteBody(s.subrange(st.pos, te)), end: nl },
                LexStV { pos: nl, in_name: false, body: false },
            )
        }
    } else {
        let p = st.pos + ws_run(s, st.pos);
        if p >= s.len() {
            StepV::Eof
        } else {
            let lt = lit_best(s, p);
            let ll = if lt is Some {
                (lt->0).1
            } else {
                0
            };
            let il = digit_run(s, p);
            let vl = version_len(s, p);
            let xl = hex_run(s, p);
            let ul = url_len(s, p);
            let m = max2(ll, max2(il, max2(vl, max2(xl, ul))));
            if m <= 0 {
                StepV::Fail(p)
            } else {
                let tok = if ll == m {
                    (lt->0).0
                } else if il == m {
                    TokV::Integer(s.subrange(p, p + m))
                } else if vl == m {
                    TokV::Version(s.subrange(p, p + m))
                } else if xl == m {
                    TokV::Uuid(s.subrange(p, p + m))
                } else {
                    TokV::UrlBody(s.subrange(p, p + m))
                };
                let in2 = if tok == TokV::Name {
                    true
                } else {
                    st.in_name
                };
                let body2 = tok == TokV::Equal && st.in_name;
                StepV::Tok(
                    STokV { start: p, tok: tok, end: p + m },
                    LexStV { pos: p + m, in_name: in2, body: body2 },
                )
            }
        }
    }
}

/// Each step stays inside the input and makes progress: the offset grows,
/// or body mode ends at the same offset.
pub proof fn lemma_spec_step_progress(s: Seq<char>, st: LexStV)
    requires
        0 <= st.pos <= s.len(),
    ensures
        spec_step(s, st) matches StepV::Tok(t, st2) ==> {
            &&& st.pos <= t.start <= t.end <= s.len()
            &&& st.pos <= st2.pos <= s.len()
            &&& (st2.pos > st.pos || (st2.pos == st.pos && st.body && !st2.body))
        },
{
    if st.body {
        lemma_nn_run_bounds(s, st.pos);
    } else {
        lemma_ws_run_bounds(s, st.pos);
        let p = st.pos + ws_run(s, st.pos);
        if p < s.len() {
            lemma_digit_run_bounds(s, p);
            lemma_hex_run_bounds(s, p);
            if digit_run(s, p) > 0 {
                let q = p + digit_run(s, p);
                if q + 1 < s.len() && s[q] == '.' && is_digit(s[q + 1]) {
                    lemma_digit_run_bounds(s, q + 2);
                }
            }
            if p + 4 <= s.len() {
                lemma_url_run_bounds(s, p + 4);
            }
        }
    }
}

/// The full token sequence from state `st` on, or the offset of the first
/// lexical failure.
pub open spec fn spec_tokens(s: Seq<char>, st: LexStV) -> Result<Seq<STokV>, int>
    decreases s.len() - st.pos, (if st.body { 1int } else { 0int }),
{
    match spec_step(s, st) {
        StepV::Eof => Result::Ok(Seq::empty()),
        StepV::Fail(o) => Result::Err(o),
        StepV::Tok(t, st2) => {
            if (st2.pos > st.pos || (st2.pos == st.pos && st.body && !st2.body)) && st2.pos
                <= s.len() {
                match spec_tokens(s, st2) {
                    Result::Ok(rest) => Result::Ok(seq![t] + rest),
                    Result::Err(o) => Result::Err(o),
                }
            } else {
                Result::Err(-1)
            }
        },
    }
}

/// The lexer's initial state.
pub open spec fn init_lex_state() -> LexStV {
    LexStV { pos: 0, in_name: false, body: false }
}

/// The mode-switching lexer: restartable from the start of the input, one
/// located token per call.
pub struct LexerState {
    pos: usize,
    in_note_name: bool,
    in_note_body: bool,
}

impl View for LexerState {
    type V = LexStV;

    closed spec fn view(&self) -> LexStV {
        LexStV { pos: self.pos as int, in_name: self.in_note_name, body: self.in_note_body }
    }
}

impl LexerState {
    /// A lexer positioned at the start of the input, in normal mode.
    pub fn new() -> (st: Self)
        ensures
            st@ == init_lex_state(),
    {
        LexerState { pos: 0, in_note_name: false, in_note_body: false }
    }

    /// The next located token of `input`, `None` at end of input, or the
    /// lexical failure a `spec_step` of the current state gives.
    #[verifier::rlimit(100)]
    pub fn next<'i>(&mut self, input: &'i str) -> (r: Result<Option<SpannedTok<'i>>, ParseError>)
        requires
            0 <= old(self)@.pos <= input@.len(),
        ensures
            spec_step(input@, old(self)@) is Eof ==> (r matches Result::Ok(o) && o is None
                && final(self)@ == old(self)@),
            spec_step(input@, old(self)@) matches StepV::Tok(t, st2) ==> (r matches Result::Ok(o)
                && o matches Option::Some(tk) && tk@ == t && final(self)@ == st2),
            spec_step(input@, old(self)@) matches StepV::Fail(o) ==> (r matches Result::Err(e) && e
                == ParseError::Lexical { offset: o as usize }),
    {
        let len = input.unicode_len();
        if self.in_note_body {
            let start = self.pos;
            let nl = scan_non_newline(input, start);
            if nl >= len {
                return Result::Err(ParseError::Lexical { offset: start });
            }
            let te = if nl > start && input.get_char(nl - 1) == '\r' {
                nl - 1
            } else {
                nl
            };
            let text = input.substring_char(start, te);
            self.pos = nl;
            self.in_note_name = false;
            self.in_note_body = false;
            return Result::Ok(
                Option::Some(SpannedTok { start, tok: Tok::NoteBody(text), end: nl }),
            );
        }
        let p = scan_ws(input, self.pos);
        if p >= len {
            return Result::Ok(Option::None);
        }
        let litr = lit_best_exec(input, p);
        let ll: usize = match &litr {
            Option::Some(pr) => pr.1,
            Option::None => 0,
        };
        let il = scan_digits(input, p) - p;
        let vl = version_len_exec(input, p);
        let xl = scan_hex(input, p) - p;
        let ul = url_len_exec(input, p);
        let mut m: usize = ll;
        if il > m {
            m = il;
        }
        if vl > m {
            m = vl;
        }
        if xl > m {
            m = xl;
        }
        if ul > m {
            m = ul;
        }
        proof {
            assert(m as int == max2(
                ll as int,
                max2(il as int, max2(vl as int, max2(xl as int, ul as int))),
            ));
        }
        if m == 0 {
            return Result::Err(ParseError::Lexical { offset: p });
        }
        let tok: Tok<'i> = if ll == m {
            match litr {
                Option::Some(pr) => pr.0,
                Option::None => {
                    proof {
                        assert(false);
                    }
                    Tok::Equal
                },
            }
        } else if il == m {
            Tok::Integer(input.substring_char(p, p + m))
        } else if vl == m {
            Tok::Version(input.substring_char(p, p + m))
        } else if xl == m {
            Tok::Uuid(input.substring_char(p, p + m))
        } else {
            Tok::UrlBody(input.substring_char(p, p + m))
        };
        let is_name = match tok {
            Tok::Name => true,
            _ => false,
        };
        let is_eq = match tok {
            Tok::Equal => true,
            _ => false,
        };
        proof {
            assert(is_name == (tok@ == TokV::Name));
            assert(is_eq == (tok@ == TokV::Equal));
        }
        self.in_note_body = is_eq && self.in_note_name;
        if is_name {
            self.in_note_name = true;
        }
        self.pos = p + m;
        Result::Ok(Option::Some(SpannedTok { start: p, tok, end: p + m }))
    }
}

pub open spec fn stoks_view(s: Seq<SpannedTok>) -> Seq<STokV> {
    Seq::new(
        s.len(),
        |i: int|
            if 0 <= i < s.len() {
                s[i]@
            } else {
                STokV { start: 0, tok: TokV::Equal, end: 0 }
            },
    )
}

proof fn lemma_stoks_view_push(s: Seq<SpannedTok>, t: SpannedTok)
    ensures
        stoks_view(s.push(t)) =~= stoks_view(s).push(t@),
{
}

/// The whole input as a token sequence, or the first lexical failure.
#[verifier::rlimit(100)]
pub fn tokenize<'i>(input: &'i str) -> (r: Result<Vec<SpannedTok<'i>>, ParseError>)
    ensures
        spec_tokens(input@, init_lex_state()) matches Result::Ok(ts) ==> (r matches Result::Ok(v)
            && stoks_view(v@) == ts),
        spec_tokens(input@, init_lex_state()) matches Result::Err(o) ==> (r matches Result::Err(e)
            && e == ParseError::Lexical { offset: o as usize }),
{
    let mut st = LexerState::new();
    let mut toks: Vec<SpannedTok<'i>> = Vec::new();
    proof {
        assert(stoks_view(toks@) =~= Seq::<STokV>::empty());
    }
    loop
        invariant
            0 <= st@.pos <= input@.len(),
            spec_tokens(input@, st@) matches Result::Ok(rest) ==> spec_tokens(
                input@,
                init_lex_state(),
            ) == Result::<Seq<STokV>, int>::Ok(stoks_view(toks@) + rest),
            spec_tokens(input@, st@) matches Result::Err(o) ==> spec_tokens(
                input@,
                init_lex_state(),
            ) == Result::<Seq<STokV>, int>::Err(o),
        decreases input@.len() - st@.pos, (if st@.body { 1int } else { 0int }),
    {
        let ghost pre = st@;
        proof {
            lemma_spec_step_progress(input@, pre);
        }
        let step = st.next(input);
        match step {
            Result::Ok(Option::None) => {
                proof {
                    assert(spec_step(input@, pre) is Eof);
                    assert(spec_tokens(input@, pre) == Result::<Seq<STokV>, int>::Ok(
                        Seq::<STokV>::empty(),
                    ));
                    assert(stoks_view(toks@) + Seq::<STokV>::empty() =~= stoks_view(toks@));
                }
                return Result::Ok(toks);
            },
            Result::Ok(Option::Some(tk)) => {
                proof {
                    assert(spec_step(input@, pre) matches StepV::Tok(t, st2) && tk@ == t && st@
                        == st2);
                    lemma_stoks_view_push(toks@, tk);
                    match spec_tokens(input@, st@) {
                        Result::Ok(rest2) => {
                            assert(spec_tokens(input@, pre) == Result::<Seq<STokV>, int>::Ok(
                                seq![tk@] + rest2,
                            ));
                            assert(stoks_view(toks@) + (seq![tk@] + rest2) =~= stoks_view(
                                toks@.push(tk),
                            ) + rest2);
                        },
                        Result::Err(_) => {},
                    }
                }
                toks.push(tk);
            },
            Result::Err(e) => {
                proof {
                    assert(spec_step(input@, pre) matches StepV::Fail(o) && e
                        == ParseError::Lexical { offset: o as usize });
                }
                return Result::Err(e);
            },
        }
    }
}

} // verus!
