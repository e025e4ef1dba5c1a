use hotlist::gen::html::{
    folder_meta_string, note_file_string, note_string, root_meta_string, root_post_string,
    root_pre_string, uuid_hyphenated_string, version_display_string, SingleEmitter,
};
use hotlist::gen::tiddler_json::{tiddler_note_body, SingleGenerator};
use hotlist::gen::traverse_hotlist;
use hotlist::ast::Version;
use hotlist::parser::parse_hotlist;

const SMALL: &str = "Opera Hotlist version 2.0\n\
Options: encoding = utf8\n\
\n\
#NOTE\n\
\tID=18\n\
\tUNIQUEID=75356378DB08C2429F4BE860ED92596F\n\
\tNAME=Fish <&> chips \x02\x02second paragraph.\n\
\tURL=http://www.example.com\n\
\tCREATED=1322363353\n";

#[test]
fn test_uuid_hyphenated_lowercase() {
    assert_eq!(
        uuid_hyphenated_string(0x75356378DB08C2429F4BE860ED92596F),
        "75356378-db08-c242-9f4b-e860ed92596f"
    );
    assert_eq!(
        uuid_hyphenated_string(0),
        "00000000-0000-0000-0000-000000000000"
    );
}

#[test]
fn test_version_display() {
    assert_eq!(
        version_display_string(Version { major: 2, minor: 0 }),
        "2.0"
    );
}

#[test]
fn test_note_html_text() {
    let hl = parse_hotlist(SMALL).unwrap();
    let note = match &hl.entries[0] {
        hotlist::ast::EntryKind::Note(n) => n,
        _ => panic!("expected a note"),
    };
    let html = note_string(note);
    let expected = "    <h2>Note 18</h2>\n    <ul>\n      <li>UUID: 75356378-db08-c242-9f4b-e860ed92596f</li>\n      <li>URL: <a href=\"http://www.example.com/\">http://www.example.com/</a></li>\n      <li>Created: 2011-11-27 03:09:13 UTC</li>\n    </ul>\n    <p>Fish &lt;&amp;&gt; chips </p>\n    <p>second paragraph.<p>\n\n";
    assert_eq!(html, expected);
}

#[test]
fn test_single_emitter_whole_document() {
    let hl = parse_hotlist(SMALL).unwrap();
    let mut em = SingleEmitter::new(String::new());
    traverse_hotlist(&hl, &mut em).unwrap();
    let out = em.into_inner();
    assert!(out.starts_with(
        "<html>\n  <head>\n    <meta charset=\"utf-8\">\n    <title>Opera Hotlist</title>\n  </head>\n  <body>\n    <h1>Opera Hotlist Version 2.0</h1>\n"
    ));
    assert!(out.contains("    <h2>Note 18</h2>\n"));
    assert!(out.ends_with("  </body>\n</html>\n"));
}

#[test]
fn test_note_file_text() {
    let hl = parse_hotlist(SMALL).unwrap();
    let note = match &hl.entries[0] {
        hotlist::ast::EntryKind::Note(n) => n,
        _ => panic!("expected a note"),
    };
    let html = note_file_string(note);
    assert!(html.starts_with(
        "<html>\n  <head>\n    <meta charset=\"utf-8\">\n    <title>Opera Hotlist: Note 18</title>\n  </head>\n  <body>\n    <h1>Note 18</h1>\n"
    ));
    assert!(html.ends_with("  </body>\n</html>\n"));
}

#[test]
fn test_folder_and_root_meta_text() {
    let inp = "Opera Hotlist version 2.0\n\
Options: encoding = utf8\n\
\n\
#FOLDER\n\
\tID=100\n\
\tUNIQUEID=11111111111111111111111111111111\n\
\tNAME=My Folder\n\
\tCREATED=900000000\n\
\tEXPANDED=YES\n\
-\n";
    let hl = parse_hotlist(inp).unwrap();
    let folder = match &hl.entries[0] {
        hotlist::ast::EntryKind::Folder(f) => f,
        _ => panic!("expected a folder"),
    };
    assert_eq!(
        folder_meta_string(folder),
        "Name: My Folder\nID: 100\nUUID: 11111111-1111-1111-1111-111111111111\nCreated: 1998-07-09 16:00:00 UTC\nExpanded: true\nTrash: false\nNumber of Entries: 0\n"
    );
    assert_eq!(root_meta_string(&hl), "Hotlist Root\nNumber of Entries: 1\n");
}

#[test]
fn test_root_pre_and_post() {
    let hl = parse_hotlist("Opera Hotlist version 2.0\nOptions: encoding = utf8\n").unwrap();
    assert_eq!(
        root_pre_string(&hl),
        "<html>\n  <head>\n    <meta charset=\"utf-8\">\n    <title>Opera Hotlist</title>\n  </head>\n  <body>\n    <h1>Opera Hotlist Version 2.0</h1>\n"
    );
    assert_eq!(root_post_string(), "  </body>\n</html>\n");
}

#[test]
fn test_tiddler_note_body_translation() {
    assert_eq!(
        tiddler_note_body("a \x02\x02b <&\"'> \x02c"),
        "a \nb &lt;&amp;&quot;&apos;&gt; c"
    );
}

#[test]
fn test_tiddler_records() {
    let hl = parse_hotlist(SMALL).unwrap();
    let mut gen = SingleGenerator::new(String::from("20200101000000000"));
    traverse_hotlist(&hl, &mut gen).unwrap();
    let recs = gen.into_records();
    assert_eq!(recs.len(), 2);
    assert_eq!(recs[0].title, "Note 18");
    assert_eq!(
        recs[0].text,
        "Fish <&> chips \x02\x02second paragraph."
    );
    assert_eq!(recs[0].tags, "opera");
    assert_eq!(recs[0].created, "20200101000000000");
    assert_eq!(recs[0].modified, "20200101000000000");
    assert_eq!(
        recs[0].uuid.as_deref(),
        Some("75356378-db08-c242-9f4b-e860ed92596f")
    );
    assert_eq!(recs[0].timestamp.as_deref(), Some("20111127030913000"));
    assert_eq!(recs[0].url.as_deref(), Some("http://www.example.com/"));
    assert_eq!(recs[0].id, Some(18));
    assert_eq!(recs[0].folder.as_deref(), Some(""));
    assert_eq!(recs[1].title, "Opera Notes");
    assert_eq!(
        recs[1].text,
        "<$list filter=\"[tag[opera]nsort[id]]\">\n<$link/> ({{!!url}})<br/>\n</$list>"
    );
    assert_eq!(recs[1].id, None);
}

#[test]
fn test_tiddler_folder_paths() {
    let inp = "Opera Hotlist version 2.0\n\
Options: encoding = utf8\n\
\n\
#FOLDER\n\
\tID=1\n\
\tUNIQUEID=11111111111111111111111111111111\n\
\tNAME=A\n\
\tCREATED=0\n\
#FOLDER\n\
\tID=2\n\
\tUNIQUEID=22222222222222222222222222222222\n\
\tNAME=B\n\
\tCREATED=0\n\
#NOTE\n\
\tID=3\n\
\tUNIQUEID=33333333333333333333333333333333\n\
\tCREATED=0\n\
-\n\
-\n";
    let hl = parse_hotlist(inp).unwrap();
    let mut gen = SingleGenerator::new(String::from("now"));
    traverse_hotlist(&hl, &mut gen).unwrap();
    let recs = gen.into_records();
    assert_eq!(recs[0].folder.as_deref(), Some("A/B"));
}
