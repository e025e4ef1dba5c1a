//! HTML rendering of a document tree: the exact texts every node is
//! emitted as, a single-file emitter that accumulates them, and the file
//! texts of the one-file-per-note layout.
//!
//! Note text is HTML-escaped, and the two-character soft-break marker
//! becomes a paragraph break; folder names are used verbatim, as the
//! format's own exports do.

use vstd::prelude::*;

use crate::ast::{Folder, FolderV, Hotlist, HotlistV, Note, NoteV, Version};
use crate::gen::Visitor;
use crate::strutil::{dec_str, hex_fixed, u64_to_string, append_hex_fixed};

verus! {

// ---------------------------------------------------------------------------
// Timestamps and identifiers as display text
// ---------------------------------------------------------------------------

pub uninterp spec fn utc_display(secs: u32) -> Seq<char>;

/// Relies on chrono's DateTime::from_timestamp and the Display of a UTC
/// datetime: the display text depends on the seconds value alone, and
/// every unsigned 32-bit count of seconds is within chrono's range.
#[verifier::external_body]
pub fn format_utc_display(secs: u32) -> (r: String)
    ensures
        r@ == utc_display(secs),
{
    let dt = chrono::DateTime::<chrono::Utc>::from_timestamp(secs as i64, 0).unwrap();
    dt.to_string()
}

/// The hyphenated lower-case form of a 128-bit identifier: the 32 hex
/// digits split 8-4-4-4-12.
pub open spec fn uuid_hyphenated(u: u128) -> Seq<char> {
    let h = hex_fixed(u as int, 32);
    h.subrange(0, 8) + seq!['-'] + h.subrange(8, 12) + seq!['-'] + h.subrange(12, 16) + seq!['-']
        + h.subrange(16, 20) + seq!['-'] + h.subrange(20, 32)
}

pub fn uuid_hyphenated_string(u: u128) -> (r: String)
    ensures
        r@ == uuid_hyphenated(u),
{
    let mut all = String::new();
    append_hex_fixed(&mut all, u, 32);
    proof {
        lemma_hex_fixed_len(u as int, 32);
        assert(all@ =~= hex_fixed(u as int, 32));
    }
    let h = all.as_str();
    let mut r = String::from_str(h.substring_char(0, 8));
    r.push('-');
    r.append(h.substring_char(8, 12));
    r.push('-');
    r.append(h.substring_char(12, 16));
    r.push('-');
    r.append(h.substring_char(16, 20));
    r.push('-');
    r.append(h.substring_char(20, 32));
    proof {
        assert(r@ =~= uuid_hyphenated(u));
    }
    r
}

pub proof fn lemma_hex_fixed_len(v: int, width: nat)
    ensures
        hex_fixed(v, width).len() == width,
    decreases width,
{
    if width > 0 {
        lemma_hex_fixed_len(v / 16, (width - 1) as nat);
    }
}

/// The display text of a two-component version, e.g. `2.0`.
pub open spec fn version_display(v: Version) -> Seq<char> {
    dec_str(v.major as nat) + seq!['.'] + dec_str(v.minor as nat)
}

pub fn version_display_string(v: Version) -> (r: String)
    ensures
        r@ == version_display(v),
{
    let mut s = u64_to_string(v.major);
    s.push('.');
    let m = u64_to_string(v.minor);
    s.append(m.as_str());
    proof {
        assert(s@ =~= version_display(v));
    }
    s
}

// ---------------------------------------------------------------------------
// Escaping of note text
// ---------------------------------------------------------------------------

/// What one character contributes to HTML output.
pub open spec fn html_char_escape(c: char) -> Seq<char> {
    if c == '<' {
        "&lt;"@
    } else if c == '>' {
        "&gt;"@
    } else if c == '"' {
        "&quot;"@
    } else if c == '&' {
        "&amp;"@
    } else if c == '\'' {
        "&apos;"@
    } else {
        seq![c]
    }
}

/// HTML-escaped note text from position `i` on, `pending` telling whether
/// the previous character was the first half of a soft-break pair.  A
/// completed pair becomes a paragraph break; an unpaired marker character
/// is dropped.
pub open spec fn html_escaped_from(s: Seq<char>, i: int, pending: bool) -> Seq<char>
    decreases s.len() - i,
{
    if 0 <= i < s.len() {
        let c = s[i];
        if c == '\u{2}' {
            if pending {
                "</p>\n    <p>"@ + html_escaped_from(s, i + 1, false)
            } else {
                html_escaped_from(s, i + 1, true)
            }
        } else {
            html_char_escape(c) + html_escaped_from(s, i + 1, false)
        }
    } else {
        Seq::empty()
    }
}

/// The HTML-escaped form of a whole note text.
pub open spec fn html_escape_text(s: Seq<char>) -> Seq<char> {
    html_escaped_from(s, 0, false)
}

/// Appends the HTML-escaped text, translating each soft-break pair into a
/// paragraph break.
pub fn append_with_escapes(buf: &mut String, raw: &str)
    ensures
        final(buf)@ == old(buf)@ + html_escape_text(raw@),
{
    let len = raw.unicode_len();
    let mut i: usize = 0;
    let mut pending: bool = false;
    proof {
        assert(old(buf)@ + html_escaped_from(raw@, 0, false) =~= buf@ + html_escaped_from(
            raw@,
            0,
            false,
        ));
    }
    while i < len
        invariant
            0 <= i <= len,
            len == raw@.len(),
            old(buf)@ + html_escape_text(raw@) == buf@ + html_escaped_from(
                raw@,
                i as int,
                pending,
            ),
        decreases len - i,
    {
        let ghost pre = buf@;
        let ghost pflag = pending;
        let c = raw.get_char(i);
        proof {
            assert(raw@[i as int] == c);
        }
        if c == '\u{2}' {
            if pending {
                buf.append("</p>\n    <p>");
                pending = false;
                proof {
                    assert(html_escaped_from(raw@, i as int, pflag) == "</p>\n    <p>"@
                        + html_escaped_from(raw@, i as int + 1, false));
                    assert(pre + html_escaped_from(raw@, i as int, pflag) =~= buf@
                        + html_escaped_from(raw@, i as int + 1, false));
                }
            } else {
                pending = true;
                proof {
                    assert(html_escaped_from(raw@, i as int, pflag) == html_escaped_from(
                        raw@,
                        i as int + 1,
                        true,
                    ));
                }
            }
        } else {
            proof {
                assert(html_escaped_from(raw@, i as int, pflag) == html_char_escape(c)
                    + html_escaped_from(raw@, i as int + 1, false));
            }
            if c == '<' {
                buf.append("&lt;");
            } else if c == '>' {
                buf.append("&gt;");
            } else if c == '"' {
                buf.append("&quot;");
            } else if c == '&' {
                buf.append("&amp;");
            } else if c == '\'' {
                buf.append("&apos;");
            } else {
                buf.push(c);
            }
            pending = false;
            proof {
                assert(buf@ =~= pre + html_char_escape(c));
                assert(pre + html_escaped_from(raw@, i as int, pflag) =~= buf@
                    + html_escaped_from(raw@, i as int + 1, false));
            }
        }
        i = i + 1;
    }
    proof {
        assert(html_escaped_from(raw@, len as int, pending) =~= Seq::<char>::empty());
    }
}

// ---------------------------------------------------------------------------
// The node texts of the single-file layout
// ---------------------------------------------------------------------------

/// The text a folder is opened with: heading and metadata list.
pub open spec fn folder_heading_html(f: FolderV) -> Seq<char> {
    "    <h2>Folder "@ + f.name + "</h2>\n    <ul>\n      <li>ID: "@ + dec_str(f.id as nat)
        + "</li>\n      <li>UUID: "@ + uuid_hyphenated(f.uuid) + "</li>\n      <li>Created: "@
        + utc_display(f.timestamp) + "</li>\n    </ul>\n"@
}

pub open spec fn folder_pre_html(f: FolderV) -> Seq<char> {
    folder_heading_html(f) + "\n"@
}

pub open spec fn folder_empty_html(f: FolderV) -> Seq<char> {
    folder_heading_html(f) + "    <p>No Entries<p>\n\n"@
}

pub open spec fn folder_post_html(f: FolderV) -> Seq<char> {
    "    <p>End Folder "@ + f.name + "</p>\n\n"@
}

/// The text a note is emitted as: heading, metadata, and the escaped body
/// when one is present.
pub open spec fn note_html(n: NoteV) -> Seq<char> {
    "    <h2>Note "@ + dec_str(n.id as nat) + "</h2>\n    <ul>\n      <li>UUID: "@
        + uuid_hyphenated(n.uuid) + "</li>\n"@ + (match n.url {
        Option::Some(u) => "      <li>URL: <a href=\""@ + u + "\">"@ + u + "</a></li>\n"@,
        Option::None => "      <li>URL: None</li>\n"@,
    }) + "      <li>Created: "@ + utc_display(n.timestamp) + "</li>\n    </ul>\n"@ + (
    match n.contents {
        Option::Some(b) => "    <p>"@ + html_escape_text(b) + "<p>\n"@,
        Option::None => Seq::empty(),
    }) + "\n"@
}

pub open spec fn root_pre_html(hl: HotlistV) -> Seq<char> {
    "<html>\n  <head>\n    <meta charset=\"utf-8\">\n    <title>Opera Hotlist</title>\n  </head>\n  <body>\n    <h1>Opera Hotlist Version "@
        + version_display(hl.version) + "</h1>\n"@
}

pub open spec fn root_post_html() -> Seq<char> {
    "  </body>\n</html>\n"@
}

fn folder_heading_string(f: &Folder) -> (r: String)
    ensures
        r@ == folder_heading_html(f@),
{
    let mut s = String::from_str("    <h2>Folder ");
    s.append(f.name.as_str());
    s.append("</h2>\n    <ul>\n      <li>ID: ");
    let id = u64_to_string(f.id as u64);
    s.append(id.as_str());
    s.append("</li>\n      <li>UUID: ");
    let uu = uuid_hyphenated_string(f.uuid);
    s.append(uu.as_str());
    s.append("</li>\n      <li>Created: ");
    let ts = format_utc_display(f.timestamp);
    s.append(ts.as_str());
    s.append("</li>\n    </ul>\n");
    proof {
        assert(s@ =~= folder_heading_html(f@));
    }
    s
}

/// The opening text of a non-empty folder.
pub fn folder_pre_string(f: &Folder) -> (r: String)
    ensures
        r@ == folder_pre_html(f@),
{
    let mut s = folder_heading_string(f);
    s.append("\n");
    proof {
        assert(s@ =~= folder_pre_html(f@));
    }
    s
}

/// The whole text of a folder without entries.
pub fn folder_empty_string(f: &Folder) -> (r: String)
    ensures
        r@ == folder_empty_html(f@),
{
    let mut s = folder_heading_string(f);
    s.append("    <p>No Entries<p>\n\n");
    proof {
        assert(s@ =~= folder_empty_html(f@));
    }
    s
}

/// The closing text of a non-empty folder.
pub fn folder_post_string(f: &Folder) -> (r: String)
    ensures
        r@ == folder_post_html(f@),
{
    let mut s = String::from_str("    <p>End Folder ");
    s.append(f.name.as_str());
    s.append("</p>\n\n");
    proof {
        assert(s@ =~= folder_post_html(f@));
    }
    s
}

/// The whole text of a note.
pub fn note_string(n: &Note) -> (r: String)
    ensures
        r@ == note_html(n@),
{
    let mut s = String::from_str("    <h2>Note ");
    let id = u64_to_string(n.id as u64);
    s.append(id.as_str());
    s.append("</h2>\n    <ul>\n      <li>UUID: ");
    let uu = uuid_hyphenated_string(n.uuid);
    s.append(uu.as_str());
    s.append("</li>\n");
    match &n.url {
        Option::Some(u) => {
            s.append("      <li>URL: <a href=\"");
            s.append(u.as_str());
            s.append("\">");
            s.append(u.as_str());
            s.append("</a></li>\n");
        },
        Option::None => {
            s.append("      <li>URL: None</li>\n");
        },
    }
    s.append("      <li>Created: ");
    let ts = format_utc_display(n.timestamp);
    s.append(ts.as_str());
    s.append("</li>\n    </ul>\n");
    match &n.contents {
        Option::Some(b) => {
            s.append("    <p>");
            append_with_escapes(&mut s, b.as_str());
            s.append("<p>\n");
        },
        Option::None => {},
    }
    s.append("\n");
    proof {
        assert(s@ =~= note_html(n@));
    }
    s
}

/// The document prologue up to and including the heading.
pub fn root_pre_string(hl: &Hotlist) -> (r: String)
    ensures
        r@ == root_pre_html(hl@),
{
    let mut s = String::from_str(
        "<html>\n  <head>\n    <meta charset=\"utf-8\">\n    <title>Opera Hotlist</title>\n  </head>\n  <body>\n    <h1>Opera Hotlist Version ",
    );
    let v = version_display_string(hl.version);
    s.append(v.as_str());
    s.append("</h1>\n");
    proof {
        assert(s@ =~= root_pre_html(hl@));
    }
    s
}

/// The document epilogue.
pub fn root_post_string() -> (r: String)
    ensures
        r@ == root_post_html(),
{
    String::from_str("  </body>\n</html>\n")
}

// ---------------------------------------------------------------------------
// The single-file emitter
// ---------------------------------------------------------------------------

/// Accumulates the whole HTML document into one buffer, one visitation
/// event at a time.
pub struct SingleEmitter {
    buf: String,
}

impl View for SingleEmitter {
    type V = Seq<char>;

    closed spec fn view(&self) -> Seq<char> {
        self.buf@
    }
}

impl SingleEmitter {
    /// An emitter that appends to `buf`.
    pub fn new(buf: String) -> (r: SingleEmitter)
        ensures
            r@ == buf@,
    {
        SingleEmitter { buf }
    }

    /// The accumulated document text.
    pub fn into_inner(self) -> (r: String)
        ensures
            r@ == self@,
    {
        self.buf
    }
}

impl Visitor for SingleEmitter {
    type E = ();

    fn visit_folder_empty(&mut self, folder: &Folder) -> (r: Result<(), ()>)
        ensures
            final(self)@ == old(self)@ + folder_empty_html(folder@),
            r is Ok,
    {
        let t = folder_empty_string(folder);
        self.buf.append(t.as_str());
        Result::Ok(())
    }

    fn visit_folder_pre(&mut self, folder: &Folder) -> (r: Result<(), ()>)
        ensures
            final(self)@ == old(self)@ + folder_pre_html(folder@),
            r is Ok,
    {
        let t = folder_pre_string(folder);
        self.buf.append(t.as_str());
        Result::Ok(())
    }

    fn visit_folder_post(&mut self, folder: &Folder) -> (r: Result<(), ()>)
        ensures
            final(self)@ == old(self)@ + folder_post_html(folder@),
            r is Ok,
    {
        let t = folder_post_string(folder);
        self.buf.append(t.as_str());
        Result::Ok(())
    }

    fn visit_note(&mut self, note: &Note) -> (r: Result<(), ()>)
        ensures
            final(self)@ == old(self)@ + note_html(note@),
            r is Ok,
    {
        let t = note_string(note);
        self.buf.append(t.as_str());
        Result::Ok(())
    }

    fn visit_root_pre(&mut self, hotlist: &Hotlist) -> (r: Result<(), ()>)
        ensures
            final(self)@ == old(self)@ + root_pre_html(hotlist@),
            r is Ok,
    {
        let t = root_pre_string(hotlist);
        self.buf.append(t.as_str());
        Result::Ok(())
    }

    fn visit_root_post(&mut self, _hotlist: &Hotlist) -> (r: Result<(), ()>)
        ensures
            final(self)@ == old(self)@ + root_post_html(),
            r is Ok,
    {
        let t = root_post_string();
        self.buf.append(t.as_str());
        Result::Ok(())
    }
}

// ---------------------------------------------------------------------------
// The file texts of the one-file-per-note layout
// ---------------------------------------------------------------------------

/// The whole text of one note's own file.
pub open spec fn note_file_html(n: NoteV) -> Seq<char> {
    "<html>\n  <head>\n    <meta charset=\"utf-8\">\n    <title>Opera Hotlist: Note "@ + dec_str(
        n.id as nat,
    ) + "</title>\n  </head>\n  <body>\n    <h1>Note "@ + dec_str(n.id as nat)
        + "</h1>\n    <ul>\n      <li>UUID: "@ + uuid_hyphenated(n.uuid) + "</li>\n"@ + (
    match n.url {
        Option::Some(u) => "      <li>URL: <a href=\""@ + u + "\">"@ + u + "</a></li>\n"@,
        Option::None => "      <li>URL: None</li>\n"@,
    }) + "      <li>Created: "@ + utc_display(n.timestamp) + "</li>\n    </ul>\n"@ + (
    match n.contents {
        Option::Some(b) => "    <p>"@ + html_escape_text(b) + "<p>\n"@,
        Option::None => Seq::empty(),
    }) + "  </body>\n</html>\n"@
}

pub fn note_file_string(n: &Note) -> (r: String)
    ensures
        r@ == note_file_html(n@),
{
    let mut s = String::from_str(
        "<html>\n  <head>\n    <meta charset=\"utf-8\">\n    <title>Opera Hotlist: Note ",
    );
    let id = u64_to_string(n.id as u64);
    s.append(id.as_str());
    s.append("</title>\n  </head>\n  <body>\n    <h1>Note ");
    s.append(id.as_str());
    s.append("</h1>\n    <ul>\n      <li>UUID: ");
    let uu = uuid_hyphenated_string(n.uuid);
    s.append(uu.as_str());
    s.append("</li>\n");
    match &n.url {
        Option::Some(u) => {
            s.append("      <li>URL: <a href=\"");
            s.append(u.as_str());
            s.append("\">");
            s.append(u.as_str());
            s.append("</a></li>\n");
        },
        Option::None => {
            s.append("      <li>URL: None</li>\n");
        },
    }
    s.append("      <li>Created: ");
    let ts = format_utc_display(n.timestamp);
    s.append(ts.as_str());
    s.append("</li>\n    </ul>\n");
    match &n.contents {
        Option::Some(b) => {
            s.append("    <p>");
            append_with_escapes(&mut s, b.as_str());
            s.append("<p>\n");
        },
        Option::None => {},
    }
    s.append("  </body>\n</html>\n");
    proof {
        assert(s@ =~= note_file_html(n@));
    }
    s
}

pub open spec fn bool_display(b: bool) -> Seq<char> {
    if b {
        "true"@
    } else {
        "false"@
    }
}

/// The metadata file text of one folder's directory.
pub open spec fn folder_meta_text(f: FolderV) -> Seq<char> {
    "Name: "@ + f.name + "\nID: "@ + dec_str(f.id as nat) + "\nUUID: "@ + uuid_hyphenated(f.uuid)
        + "\nCreated: "@ + utc_display(f.timestamp) + "\nExpanded: "@ + bool_display(f.expanded)
        + "\nTrash: "@ + bool_display(f.trash) + "\nNumber of Entries: "@ + dec_str(
        f.entries.len(),
    ) + "\n"@
}

pub fn folder_meta_string(f: &Folder) -> (r: String)
    ensures
        r@ == folder_meta_text(f@),
{
    let mut s = String::from_str("Name: ");
    s.append(f.name.as_str());
    s.append("\nID: ");
    let id = u64_to_string(f.id as u64);
    s.append(id.as_str());
    s.append("\nUUID: ");
    let uu = uuid_hyphenated_string(f.uuid);
    s.append(uu.as_str());
    s.append("\nCreated: ");
    let ts = format_utc_display(f.timestamp);
    s.append(ts.as_str());
    s.append("\nExpanded: ");
    s.append(if f.expanded {
        "true"
    } else {
        "false"
    });
    s.append("\nTrash: ");
    s.append(if f.trash {
        "true"
    } else {
        "false"
    });
    s.append("\nNumber of Entries: ");
    let c = u64_to_string(f.entries.len() as u64);
    s.append(c.as_str());
    s.append("\n");
    proof {
        assert(f@.entries.len() == f.entries@.len());
        assert(s@ =~= folder_meta_text(f@));
    }
    s
}

/// The metadata file text of the root directory.
pub open spec fn root_meta_text(hl: HotlistV) -> Seq<char> {
    "Hotlist Root\nNumber of Entries: "@ + dec_str(hl.entries.len()) + "\n"@
}

pub fn root_meta_string(hl: &Hotlist) -> (r: String)
    ensures
        r@ == root_meta_text(hl@),
{
    let mut s = String::from_str("Hotlist Root\nNumber of Entries: ");
    let c = u64_to_string(hl.entries.len() as u64);
    s.append(c.as_str());
    s.append("\n");
    proof {
        assert(hl@.entries.len() == hl.entries@.len());
        assert(s@ =~= root_meta_text(hl@));
    }
    s
}

} // verus!
