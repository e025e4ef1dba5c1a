//! The tiddler-style JSON rendering: one record per note, collected in
//! document order, and a final landing record listing them.  Serialization
//! of the finished records to bytes is the caller's concern; this module
//! fixes exactly what each record holds.

use vstd::prelude::*;

use crate::ast::{Folder, Hotlist, Note, NoteV};
use crate::gen::html::uuid_hyphenated;
use crate::gen::Visitor;
use crate::strutil::dec_str;

verus! {

pub uninterp spec fn utc_compact(secs: u32) -> Seq<char>;

/// Relies on chrono's DateTime::from_timestamp and its formatting with the
/// fixed layout `%Y%m%d%H%M%S%3f`: the text depends on the seconds value
/// alone, and every unsigned 32-bit count of seconds is within range.
#[verifier::external_body]
pub fn format_utc_compact(secs: u32) -> (r: String)
    ensures
        r@ == utc_compact(secs),
{
    let dt = chrono::DateTime::<chrono::Utc>::from_timestamp(secs as i64, 0).unwrap();
    dt.format("%Y%m%d%H%M%S%3f").to_string()
}

// ---------------------------------------------------------------------------
// The soft-break translation for plain-text output
// ---------------------------------------------------------------------------

/// Note text prepared for text output from position `i` on: the same
/// escapes as the HTML form, but a completed soft-break pair becomes a
/// plain newline; an unpaired marker character is dropped.
pub open spec fn tiddler_escaped_from(s: Seq<char>, i: int, pending: bool) -> Seq<char>
    decreases s.len() - i,
{
    if 0 <= i < s.len() {
        let c = s[i];
        if c == '\u{2}' {
            if pending {
                seq!['\n'] + tiddler_escaped_from(s, i + 1, false)
            } else {
                tiddler_escaped_from(s, i + 1, true)
            }
        } else {
            crate::gen::html::html_char_escape(c) + tiddler_escaped_from(s, i + 1, false)
        }
    } else {
        Seq::empty()
    }
}

pub open spec fn tiddler_escape_text(s: Seq<char>) -> Seq<char> {
    tiddler_escaped_from(s, 0, false)
}

/// The text form of a note body: HTML character escapes, soft-break pairs
/// as newlines.
pub fn tiddler_note_body(raw: &str) -> (r: String)
    ensures
        r@ == tiddler_escape_text(raw@),
{
    let len = raw.unicode_len();
    let mut buf = String::new();
    let mut i: usize = 0;
    let mut pending: bool = false;
    while i < len
        invariant
            0 <= i <= len,
            len == raw@.len(),
            tiddler_escape_text(raw@) == buf@ + tiddler_escaped_from(raw@, i as int, pending),
        decreases len - i,
    {
        let ghost pre = buf@;
        let ghost pflag = pending;
        let c = raw.get_char(i);
        proof {
            assert(raw@[i as int] == c);
        }
        if c == '\u{2}' {
            if pending {
                buf.push('\n');
                pending = false;
                proof {
                    assert(tiddler_escaped_from(raw@, i as int, pflag) == seq!['\n']
                        + tiddler_escaped_from(raw@, i as int + 1, false));
                    assert(pre + tiddler_escaped_from(raw@, i as int, pflag) =~= buf@
                        + tiddler_escaped_from(raw@, i as int + 1, false));
                }
            } else {
                pending = true;
                proof {
                    assert(tiddler_escaped_from(raw@, i as int, pflag) == tiddler_escaped_from(
                        raw@,
                        i as int + 1,
                        true,
                    ));
                }
            }
        } else {
            proof {
                assert(tiddler_escaped_from(raw@, i as int, pflag)
                    == crate::gen::html::html_char_escape(c) + tiddler_escaped_from(
                    raw@,
                    i as int + 1,
                    false,
                ));
            }
            if c == '<' {
                buf.append("&lt;");
            } else if c == '>' {
                buf.append("&gt;");
            } else if c == '"' {
                buf.append("&quot;");
            } else if c == '&' {
                buf.append("&amp;");
            } else if c == '\'' {
                buf.append("&apos;");
            } else {
                buf.push(c);
            }
            pending = false;
            proof {
                assert(buf@ =~= pre + crate::gen::html::html_char_escape(c));
                assert(pre + tiddler_escaped_from(raw@, i as int, pflag) =~= buf@
                    + tiddler_escaped_from(raw@, i as int + 1, false));
            }
        }
        i = i + 1;
    }
    proof {
        assert(tiddler_escaped_from(raw@, len as int, pending) =~= Seq::<char>::empty());
        assert(tiddler_escape_text(raw@) =~= buf@);
    }
    buf
}

// ---------------------------------------------------------------------------
// Folder paths
// ---------------------------------------------------------------------------

pub open spec fn segs_view(s: Seq<String>) -> Seq<Seq<char>> {
    Seq::new(
        s.len(),
        |i: int|
            if 0 <= i < s.len() {
                s[i]@
            } else {
                Seq::<char>::empty()
            },
    )
}

/// Path segments joined by a slash, the root being the empty path.
pub open spec fn path_joined(segs: Seq<Seq<char>>) -> Seq<char>
    decreases segs.len(),
{
    if segs.len() == 0 {
        Seq::empty()
    } else if segs.len() == 1 {
        segs[0]
    } else {
        path_joined(segs.drop_last()) + seq!['/'] + segs.last()
    }
}

/// The joined form of the folder path leading to the current node.
pub fn joined_path(segs: &Vec<String>) -> (r: String)
    ensures
        r@ == path_joined(segs_view(segs@)),
{
    let mut s = String::new();
    let mut i: usize = 0;
    proof {
        assert(segs_view(segs@).take(0) =~= Seq::<Seq<char>>::empty());
    }
    while i < segs.len()
        invariant
            0 <= i <= segs@.len(),
            s@ == path_joined(segs_view(segs@).take(i as int)),
        decreases segs@.len() - i,
    {
        let ghost pre = s@;
        if i > 0 {
            s.push('/');
        }
        s.append(segs[i].as_str());
        proof {
            let sv = segs_view(segs@);
            assert(sv[i as int] == segs@[i as int]@);
            assert(sv.take(i as int + 1).drop_last() =~= sv.take(i as int));
            assert(sv.take(i as int + 1).last() == sv[i as int]);
            if i == 0 {
                assert(s@ =~= path_joined(sv.take(1)));
            } else {
                assert(s@ =~= path_joined(sv.take(i as int)) + seq!['/'] + sv[i as int]);
            }
        }
        i = i + 1;
    }
    proof {
        assert(segs_view(segs@).take(segs@.len() as int) =~= segs_view(segs@));
    }
    s
}

// ---------------------------------------------------------------------------
// Records
// ---------------------------------------------------------------------------

/// One output record.  Fields that a record kind does not carry are absent.
#[derive(Debug, PartialEq, Eq)]
pub struct TiddlerRecord {
    pub title: String,
    pub text: String,
    pub tags: String,
    pub created: String,
    pub modified: String,
    pub uuid: Option<String>,
    pub timestamp: Option<String>,
    pub url: Option<String>,
    pub id: Option<u32>,
    pub folder: Option<String>,
}

/// Mathematical view of a record.
pub struct TiddlerRecordV {
    pub title: Seq<char>,
    pub text: Seq<char>,
    pub tags: Seq<char>,
    pub created: Seq<char>,
    pub modified: Seq<char>,
    pub uuid: Option<Seq<char>>,
    pub timestamp: Option<Seq<char>>,
    pub url: Option<Seq<char>>,
    pub id: Option<u32>,
    pub folder: Option<Seq<char>>,
}

impl View for TiddlerRecord {
    type V = TiddlerRecordV;

    open spec fn view(&self) -> TiddlerRecordV {
        TiddlerRecordV {
            title: self.title@,
            text: self.text@,
            tags: self.tags@,
            created: self.created@,
            modified: self.modified@,
            uuid: crate::ast::opt_str_view(self.uuid),
            timestamp: crate::ast::opt_str_view(self.timestamp),
            url: crate::ast::opt_str_view(self.url),
            id: self.id,
            folder: crate::ast::opt_str_view(self.folder),
        }
    }
}

/// The record of one note: its text verbatim, its identifiers, its own
/// timestamp in compact form, and the shared creation instant of this run.
pub open spec fn note_record_spec(n: NoteV, folder: Seq<char>, now: Seq<char>) -> TiddlerRecordV {
    TiddlerRecordV {
        title: "Note "@ + dec_str(n.id as nat),
        text: match n.contents {
            Option::Some(b) => b,
            Option::None => Seq::empty(),
        },
        tags: "opera"@,
        created: now,
        modified: now,
        uuid: Option::Some(uuid_hyphenated(n.uuid)),
        timestamp: Option::Some(utc_compact(n.timestamp)),
        url: Option::Some(
            match n.url {
                Option::Some(u) => u,
                Option::None => "None"@,
            },
        ),
        id: Option::Some(n.id),
        folder: Option::Some(folder),
    }
}

/// The landing record emitted after every note: the page that lists them.
pub open spec fn landing_record_spec(now: Seq<char>) -> TiddlerRecordV {
    TiddlerRecordV {
        title: "Opera Notes"@,
        text: "<$list filter=\"[tag[opera]nsort[id]]\">\n<$link/> ({{!!url}})<br/>\n</$list>"@,
        tags: "opera"@,
        created: now,
        modified: now,
        uuid: Option::None,
        timestamp: Option::None,
        url: Option::None,
        id: Option::None,
        folder: Option::None,
    }
}

pub fn note_record(n: &Note, folder: String, now: &String) -> (r: TiddlerRecord)
    ensures
        r@ == note_record_spec(n@, folder@, now@),
{
    let mut title = String::from_str("Note ");
    let id = crate::strutil::u64_to_string(n.id as u64);
    title.append(id.as_str());
    let text = match &n.contents {
        Option::Some(b) => b.clone(),
        Option::None => String::new(),
    };
    let url = match &n.url {
        Option::Some(u) => u.clone(),
        Option::None => String::from_str("None"),
    };
    let r = TiddlerRecord {
        title,
        text,
        tags: String::from_str("opera"),
        created: now.clone(),
        modified: now.clone(),
        uuid: Option::Some(crate::gen::html::uuid_hyphenated_string(n.uuid)),
        timestamp: Option::Some(format_utc_compact(n.timestamp)),
        url: Option::Some(url),
        id: Option::Some(n.id),
        folder: Option::Some(folder),
    };
    proof {
        assert(r@.title =~= note_record_spec(n@, folder@, now@).title);
    }
    r
}

pub fn landing_record(now: &String) -> (r: TiddlerRecord)
    ensures
        r@ == landing_record_spec(now@),
{
    TiddlerRecord {
        title: String::from_str("Opera Notes"),
        text: String::from_str(
            "<$list filter=\"[tag[opera]nsort[id]]\">\n<$link/> ({{!!url}})<br/>\n</$list>",
        ),
        tags: String::from_str("opera"),
        created: now.clone(),
        modified: now.clone(),
        uuid: Option::None,
        timestamp: Option::None,
        url: Option::None,
        id: Option::None,
        folder: Option::None,
    }
}

// ---------------------------------------------------------------------------
// The collecting generator
// ---------------------------------------------------------------------------

pub open spec fn records_view(s: Seq<TiddlerRecord>) -> Seq<TiddlerRecordV> {
    Seq::new(
        s.len(),
        |i: int|
            if 0 <= i < s.len() {
                s[i]@
            } else {
                landing_record_spec(Seq::empty())
            },
    )
}

proof fn lemma_records_view_push(s: Seq<TiddlerRecord>, r: TiddlerRecord)
    ensures
        records_view(s.push(r)) =~= records_view(s).push(r@),
{
}

proof fn lemma_segs_view_push(s: Seq<String>, x: String)
    ensures
        segs_view(s.push(x)) =~= segs_view(s).push(x@),
{
}

proof fn lemma_segs_view_drop_last(s: Seq<String>)
    requires
        s.len() > 0,
    ensures
        segs_view(s.drop_last()) =~= segs_view(s).drop_last(),
{
}

/// Mathematical view of the generator: the records collected so far, the
/// folder path of the current position, and the creation instant fixed
/// for the run.
pub struct SingleGeneratorV {
    pub records: Seq<TiddlerRecordV>,
    pub path: Seq<Seq<char>>,
    pub now: Seq<char>,
}

/// Collects one record per note, in document order, and closes with the
/// landing record; `now` is the creation instant the caller fixes for the
/// whole run.
pub struct SingleGenerator {
    json: Vec<TiddlerRecord>,
    root: Vec<String>,
    now: String,
}

impl View for SingleGenerator {
    type V = SingleGeneratorV;

    closed spec fn view(&self) -> SingleGeneratorV {
        SingleGeneratorV {
            records: records_view(self.json@),
            path: segs_view(self.root@),
            now: self.now@,
        }
    }
}

impl SingleGenerator {
    /// A generator with no records yet, rooted at the empty path.
    pub fn new(now: String) -> (r: SingleGenerator)
        ensures
            r@.records =~= Seq::<TiddlerRecordV>::empty(),
            r@.path =~= Seq::<Seq<char>>::empty(),
            r@.now == now@,
    {
        SingleGenerator { json: Vec::new(), root: Vec::new(), now }
    }

    /// The records collected, in the order the walk produced them.
    pub fn into_records(self) -> (r: Vec<TiddlerRecord>)
        ensures
            records_view(r@) == self@.records,
    {
        self.json
    }
}

impl Visitor for SingleGenerator {
    type E = ();

    fn visit_folder_empty(&mut self, _folder: &Folder) -> (r: Result<(), ()>)
        ensures
            final(self)@ == old(self)@,
            r is Ok,
    {
        Result::Ok(())
    }

    fn visit_folder_pre(&mut self, folder: &Folder) -> (r: Result<(), ()>)
        ensures
            final(self)@.records == old(self)@.records,
            final(self)@.path == old(self)@.path.push(folder@.name),
            final(self)@.now == old(self)@.now,
            r is Ok,
    {
        self.root.push(folder.name.clone());
        proof {
            lemma_segs_view_push(old(self).root@, folder.name);
        }
        Result::Ok(())
    }

    fn visit_folder_post(&mut self, _folder: &Folder) -> (r: Result<(), ()>)
        ensures
            final(self)@.records == old(self)@.records,
            final(self)@.path == (if old(self)@.path.len() > 0 {
                old(self)@.path.drop_last()
            } else {
                old(self)@.path
            }),
            final(self)@.now == old(self)@.now,
            r is Ok,
    {
        let _ = self.root.pop();
        proof {
            if old(self).root@.len() > 0 {
                lemma_segs_view_drop_last(old(self).root@);
                assert(self.root@ =~= old(self).root@.drop_last());
            } else {
                assert(segs_view(self.root@) =~= segs_view(old(self).root@));
            }
        }
        Result::Ok(())
    }

    fn visit_note(&mut self, note: &Note) -> (r: Result<(), ()>)
        ensures
            final(self)@.records == old(self)@.records.push(
                note_record_spec(note@, path_joined(old(self)@.path), old(self)@.now),
            ),
            final(self)@.path == old(self)@.path,
            final(self)@.now == old(self)@.now,
            r is Ok,
    {
        let folder = joined_path(&self.root);
        let rec = note_record(note, folder, &self.now);
        proof {
            lemma_records_view_push(self.json@, rec);
        }
        self.json.push(rec);
        Result::Ok(())
    }

    fn visit_root_pre(&mut self, _hotlist: &Hotlist) -> (r: Result<(), ()>)
        ensures
            final(self)@ == old(self)@,
            r is Ok,
    {
        Result::Ok(())
    }

    fn visit_root_post(&mut self, _hotlist: &Hotlist) -> (r: Result<(), ()>)
        ensures
            final(self)@.records == old(self)@.records.push(landing_record_spec(old(self)@.now)),
            final(self)@.path == old(self)@.path,
            final(self)@.now == old(self)@.now,
            r is Ok,
    {
        let rec = landing_record(&self.now);
        proof {
            lemma_records_view_push(self.json@, rec);
        }
        self.json.push(rec);
        Result::Ok(())
    }
}

} // verus!
