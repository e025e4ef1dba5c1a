use hotlist::ast::{Folder, Hotlist, Note};
use hotlist::gen::{traverse_hotlist, Visitor};
use hotlist::parser::parse_hotlist;

struct Recorder {
    events: Vec<String>,
    fail_on: Option<String>,
}

impl Recorder {
    fn new() -> Recorder {
        Recorder {
            events: Vec::new(),
            fail_on: None,
        }
    }

    fn record(&mut self, ev: String) -> Result<(), String> {
        self.events.push(ev.clone());
        match &self.fail_on {
            Some(f) if *f == ev => Err(ev),
            _ => Ok(()),
        }
    }
}

impl Visitor for Recorder {
    type E = String;

    fn visit_folder_empty(&mut self, folder: &Folder) -> Result<(), String> {
        let name = folder.name.clone();
        self.record(format!("folder_empty:{}", name))
    }

    fn visit_folder_pre(&mut self, folder: &Folder) -> Result<(), String> {
        let name = folder.name.clone();
        self.record(format!("folder_pre:{}", name))
    }

    fn visit_folder_post(&mut self, folder: &Folder) -> Result<(), String> {
        let name = folder.name.clone();
        self.record(format!("folder_post:{}", name))
    }

    fn visit_note(&mut self, note: &Note) -> Result<(), String> {
        self.record(format!("note:{}", note.id))
    }

    fn visit_root_pre(&mut self, _hotlist: &Hotlist) -> Result<(), String> {
        self.record(String::from("root_pre"))
    }

    fn visit_root_post(&mut self, _hotlist: &Hotlist) -> Result<(), String> {
        self.record(String::from("root_post"))
    }
}

const NESTED: &str = "Opera Hotlist version 2.0\n\
Options: encoding = utf8\n\
\n\
#FOLDER\n\
\tID=1\n\
\tUNIQUEID=11111111111111111111111111111111\n\
\tNAME=Outer\n\
\tCREATED=0\n\
\n\
#NOTE\n\
\tID=2\n\
\tUNIQUEID=22222222222222222222222222222222\n\
\tNAME=A note.\n\
\tCREATED=0\n\
\n\
#FOLDER\n\
\tID=3\n\
\tUNIQUEID=33333333333333333333333333333333\n\
\tNAME=Inner\n\
\tCREATED=0\n\
\tTRASH FOLDER=YES\n\
-\n\
-\n";

#[test]
fn test_traversal_order_nested() {
    let hl = parse_hotlist(NESTED).unwrap();
    let mut rec = Recorder::new();
    traverse_hotlist(&hl, &mut rec).unwrap();
    assert_eq!(
        rec.events,
        vec![
            "root_pre",
            "folder_pre:Outer",
            "note:2",
            "folder_empty:Inner",
            "folder_post:Outer",
            "root_post",
        ]
    );
}

#[test]
fn test_traversal_empty_hotlist() {
    let hl = parse_hotlist("Opera Hotlist version 2.0\nOptions: encoding = utf8\n").unwrap();
    assert!(hl.entries.is_empty());
    let mut rec = Recorder::new();
    traverse_hotlist(&hl, &mut rec).unwrap();
    assert_eq!(rec.events, vec!["root_pre", "root_post"]);
}

#[test]
fn test_traversal_identical_sibling_notes() {
    // Two structurally identical sibling notes must each be visited once:
    // node identity, not value equality, drives the walk.
    let inp = "Opera Hotlist version 2.0\n\
Options: encoding = utf8\n\
\n\
#FOLDER\n\
\tID=1\n\
\tUNIQUEID=11111111111111111111111111111111\n\
\tNAME=F\n\
\tCREATED=0\n\
\n\
#NOTE\n\
\tID=9\n\
\tUNIQUEID=22222222222222222222222222222222\n\
\tCREATED=0\n\
\n\
#NOTE\n\
\tID=9\n\
\tUNIQUEID=22222222222222222222222222222222\n\
\tCREATED=0\n\
-\n";
    let hl = parse_hotlist(inp).unwrap();
    let mut rec = Recorder::new();
    traverse_hotlist(&hl, &mut rec).unwrap();
    assert_eq!(
        rec.events,
        vec![
            "root_pre",
            "folder_pre:F",
            "note:9",
            "note:9",
            "folder_post:F",
            "root_post",
        ]
    );
}

#[test]
fn test_traversal_deep_nesting() {
    let inp = "Opera Hotlist version 2.0\n\
Options: encoding = utf8\n\
\n\
#FOLDER\n\
\tID=1\n\
\tUNIQUEID=11111111111111111111111111111111\n\
\tNAME=A\n\
\tCREATED=0\n\
#FOLDER\n\
\tID=2\n\
\tUNIQUEID=22222222222222222222222222222222\n\
\tNAME=B\n\
\tCREATED=0\n\
#NOTE\n\
\tID=3\n\
\tUNIQUEID=33333333333333333333333333333333\n\
\tCREATED=0\n\
-\n\
-\n";
    let hl = parse_hotlist(inp).unwrap();
    let mut rec = Recorder::new();
    traverse_hotlist(&hl, &mut rec).unwrap();
    assert_eq!(
        rec.events,
        vec![
            "root_pre",
            "folder_pre:A",
            "folder_pre:B",
            "note:3",
            "folder_post:B",
            "folder_post:A",
            "root_post",
        ]
    );
}

#[test]
fn test_traversal_aborts_on_first_failure() {
    let hl = parse_hotlist(NESTED).unwrap();
    let mut rec = Recorder::new();
    rec.fail_on = Some(String::from("note:2"));
    let r = traverse_hotlist(&hl, &mut rec);
    assert_eq!(r, Err(String::from("note:2")));
    assert_eq!(rec.events, vec!["root_pre", "folder_pre:Outer", "note:2"]);
}
