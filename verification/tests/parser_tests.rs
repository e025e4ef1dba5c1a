use hotlist::ast::{
    Encoding, EntryKind, Folder, Hotlist, HotlistError, Note, Options, ParseError, SingleOp,
    SpanInfo, Version,
};
use hotlist::parser::{
    parse_entries, parse_header, parse_hotlist, parse_hotlist_version, parse_note_entry,
    parse_options, parse_single_op,
};

fn ver(major: u64, minor: u64) -> Version {
    Version { major, minor }
}

fn norm_url(u: &str) -> String {
    url::Url::parse(u).unwrap().as_str().to_string()
}

#[test]
fn test_version() {
    let inp = "Opera Hotlist version 2.0";
    assert_eq!(parse_hotlist_version(inp).unwrap(), ver(2, 0));
}

#[test]
fn test_version_with_wide_components() {
    let inp = "Opera Hotlist version 10.25";
    assert_eq!(parse_hotlist_version(inp).unwrap(), ver(10, 25));
}

#[test]
fn test_bare_numeral_version() {
    let inp = "Opera Hotlist version 3";
    assert_eq!(parse_hotlist_version(inp).unwrap(), ver(3, 0));
}

#[test]
fn test_encoding() {
    let inp = "encoding = utf8, version=3";
    assert_eq!(
        parse_single_op(inp).unwrap(),
        SingleOp::Encoding(Encoding::Utf8(ver(3, 0)))
    );
}

#[test]
fn test_options() {
    let inp = "Options: encoding = utf8, version=3";
    assert_eq!(
        parse_options(inp).unwrap(),
        Options {
            encoding: Encoding::Utf8(ver(3, 0))
        }
    );
}

#[test]
fn test_options_missing() {
    let inp = "Options:";
    assert_eq!(
        parse_options(inp).unwrap_err(),
        HotlistError::RequiredFieldMissing(
            String::from("encoding"),
            SpanInfo {
                error: None,
                entry: (0, 8)
            }
        )
        .into()
    );
}

#[test]
fn test_unrecognized_option_key_before_encoding() {
    let inp = "Options: ID = 1, encoding = utf8";
    assert_eq!(
        parse_options(inp).unwrap(),
        Options {
            encoding: Encoding::Utf8(ver(0, 0))
        }
    );
}

#[test]
fn test_unrecognized_option_key_after_encoding() {
    let inp = "Options: encoding = utf8, version=3, EXPANDED = YES";
    assert_eq!(
        parse_options(inp).unwrap(),
        Options {
            encoding: Encoding::Utf8(ver(3, 0))
        }
    );
}

#[test]
fn test_options_with_only_unrecognized_keys() {
    let inp = "Options: version = 9";
    assert_eq!(
        parse_options(inp).unwrap_err(),
        HotlistError::RequiredFieldMissing(
            String::from("encoding"),
            SpanInfo {
                error: None,
                entry: (0, 20)
            }
        )
        .into()
    );
}

#[test]
fn test_header() {
    let inp = "Opera Hotlist version 2.0\n\
               Options: encoding = utf8, version=3\n";
    assert_eq!(
        parse_header(inp).unwrap(),
        (
            ver(2, 0),
            Options {
                encoding: Encoding::Utf8(ver(3, 0))
            },
        )
    );
}

#[test]
fn test_note_with_linebreak() {
    let inp = "#NOTE\n\
    \tID=18\n\
    \tUNIQUEID=75356378DB08C2429F4BE860ED92596F\n\
    \tNAME=This is a fake note with \x02\x02an encoded linebreak.\n\
    \tURL=http://www.example.com\n\
    \tCREATED=1322363353\n\
    \tACTIVE=NO\n";

    assert_eq!(
        parse_note_entry(inp).unwrap(),
        Note {
            id: 18,
            uuid: 0x75356378DB08C2429F4BE860ED92596F,
            contents: Some(String::from(
                "This is a fake note with \x02\x02an encoded linebreak."
            )),
            url: Some(norm_url("http://www.example.com")),
            timestamp: 1322363353,
            active: false,
        }
    );
}

#[test]
fn test_two_notes() {
    let inp = "#NOTE\n\
    \tID=1\n\
    \tUNIQUEID=00000000000000000000000000000000\n\
    \tNAME=Foo.\n\
    \tURL=https://www.example.com/a/random/path\n\
    \tCREATED=0\n\
    \n\
    #NOTE\n\
    \tID=2\n\
    \tUNIQUEID=FFFFFFFFFFFFFFFFFFFFFFFFFFFFFFFF\n\
    \tNAME=Bar.\n\
    \tURL=http://www.example.org/path/to/file\n\
    \tCREATED=2147483647\n\
    \tACTIVE=YES\n";

    assert_eq!(
        parse_entries(inp).unwrap(),
        vec![
            EntryKind::Note(Note {
                id: 1,
                uuid: 0x00000000000000000000000000000000,
                contents: Some(String::from("Foo.")),
                url: Some(norm_url("https://www.example.com/a/random/path")),
                timestamp: 0,
                active: false,
            }),
            EntryKind::Note(Note {
                id: 2,
                uuid: 0xFFFFFFFFFFFFFFFFFFFFFFFFFFFFFFFF,
                contents: Some(String::from("Bar.")),
                url: Some(norm_url("http://www.example.org/path/to/file")),
                timestamp: 2147483647,
                active: true,
            }),
        ]
    );
}

#[test]
fn test_folder() {
    let inp = "#FOLDER\n\
    \tID=100\n\
    \tUNIQUEID=11111111111111111111111111111111\n\
    \tNAME=My Folder\n\
    \tCREATED=900000000\n\
    \tEXPANDED=YES\n\
    \n\
    #NOTE\n\
    \tID=200\n\
    \tUNIQUEID=DEADCAFEDEADBEEFFEEDCAFEBAADF00D\n\
    \tNAME=Baz.\n\
    \tURL=https://www.example.net\n\
    \tCREATED=1000000000\n\
    \n\
    #FOLDER\n\
    \tID=238\n\
    \tNAME=Trash\n\
    \tCREATED=1322360302\n\
    \tTRASH FOLDER=YES\n\
    \tUNIQUEID=A9AAFED0976111DC85AC8946BEF8D2DC\n\
    -
    \n\
    -\n\
    #NOTE\n\
    \tID=400\n\
    \tUNIQUEID=22222222222222222222222222222222\n\
    \tNAME=Quux.\n\
    \tACTIVE=YES\n\
    \tURL=https://www.example.edu\n\
    \tCREATED=1100000000\n\
    \n";

    assert_eq!(
        parse_entries(inp).unwrap(),
        vec![
            EntryKind::Folder(Folder {
                id: 100,
                uuid: 0x11111111111111111111111111111111,
                name: String::from("My Folder"),
                timestamp: 900000000,
                expanded: true,
                trash: false,
                entries: vec![
                    EntryKind::Note(Note {
                        id: 200,
                        uuid: 0xDEADCAFEDEADBEEFFEEDCAFEBAADF00D,
                        contents: Some(String::from("Baz.")),
                        url: Some(norm_url("https://www.example.net")),
                        timestamp: 1000000000,
                        active: false,
                    }),
                    EntryKind::Folder(Folder {
                        id: 238,
                        uuid: 0xA9AAFED0976111DC85AC8946BEF8D2DC,
                        name: String::from("Trash"),
                        timestamp: 1322360302,
                        expanded: false,
                        trash: true,
                        entries: vec![],
                    }),
                ],
            }),
            EntryKind::Note(Note {
                id: 400,
                uuid: 0x22222222222222222222222222222222,
                contents: Some(String::from("Quux.")),
                url: Some(norm_url("https://www.example.edu")),
                timestamp: 1100000000,
                active: true,
            }),
        ]
    );
}

#[test]
fn test_whole_document() {
    let inp = "Opera Hotlist version 2.0\n\
               Options: encoding = utf8, version=3\n\
               \n\
               #NOTE\n\
               \tID=1\n\
               \tUNIQUEID=00000000000000000000000000000000\n\
               \tNAME=Foo.\n\
               \tURL=https://example.com/a\n\
               \tCREATED=0\n";
    let hl = parse_hotlist(inp).unwrap();
    assert_eq!(
        hl,
        Hotlist {
            version: ver(2, 0),
            options: Options {
                encoding: Encoding::Utf8(ver(3, 0))
            },
            entries: vec![EntryKind::Note(Note {
                id: 1,
                uuid: 0,
                contents: Some(String::from("Foo.")),
                url: Some(norm_url("https://example.com/a")),
                timestamp: 0,
                active: false,
            })],
        }
    );
}

#[test]
fn test_note_without_name_or_url() {
    let inp = "#NOTE\n\
               \tID=7\n\
               \tUNIQUEID=0000000000000000000000000000000A\n\
               \tCREATED=5\n";
    assert_eq!(
        parse_note_entry(inp).unwrap(),
        Note {
            id: 7,
            uuid: 0xA,
            contents: None,
            url: None,
            timestamp: 5,
            active: false,
        }
    );
}

#[test]
fn test_short_uuid_rejected() {
    let inp = "#NOTE\n\
               \tID=1\n\
               \tUNIQUEID=ABC\n\
               \tCREATED=0\n";
    assert_eq!(
        parse_note_entry(inp).unwrap_err(),
        ParseError::Validation(HotlistError::InvalidUuid(String::from("ABC")))
    );
}

#[test]
fn test_id_out_of_range_rejected() {
    let inp = "#NOTE\n\
               \tID=4294967296\n\
               \tUNIQUEID=00000000000000000000000000000000\n\
               \tCREATED=0\n";
    assert_eq!(
        parse_note_entry(inp).unwrap_err(),
        ParseError::Validation(HotlistError::IntegerOutOfRange(String::from("4294967296")))
    );
}

#[test]
fn test_invalid_url_rejected() {
    let inp = "#NOTE\n\
               \tID=1\n\
               \tUNIQUEID=00000000000000000000000000000000\n\
               \tURL=http://[\n\
               \tCREATED=0\n";
    assert_eq!(
        parse_note_entry(inp).unwrap_err(),
        ParseError::Validation(HotlistError::InvalidUrl(String::from("http://[")))
    );
}

#[test]
fn test_missing_required_field_in_note() {
    let inp = "#NOTE\n\tUNIQUEID=00000000000000000000000000000000\n\tCREATED=0\n";
    match parse_note_entry(inp).unwrap_err() {
        ParseError::Validation(HotlistError::RequiredFieldMissing(f, span)) => {
            assert_eq!(f, "ID");
            assert_eq!(span.entry.0, 0);
            assert!(span.error.is_none());
        }
        other => panic!("unexpected error: {:?}", other),
    }
}

#[test]
fn test_folder_requires_name() {
    let inp = "#FOLDER\n\
               \tID=1\n\
               \tUNIQUEID=00000000000000000000000000000000\n\
               \tCREATED=0\n\
               -\n";
    match parse_entries(inp).unwrap_err() {
        ParseError::Validation(HotlistError::RequiredFieldMissing(f, _)) => {
            assert_eq!(f, "NAME");
        }
        other => panic!("unexpected error: {:?}", other),
    }
}

#[test]
fn test_missing_folder_terminator() {
    let inp = "#FOLDER\n\
               \tID=1\n\
               \tUNIQUEID=00000000000000000000000000000000\n\
               \tNAME=X\n\
               \tCREATED=0\n";
    assert_eq!(
        parse_entries(inp).unwrap_err(),
        ParseError::UnexpectedEof {
            offset: inp.chars().count()
        }
    );
}

#[test]
fn test_lexical_error_offset() {
    let inp = "Opera Hotlist version 2.0\n^";
    let off = inp.chars().count() - 1;
    assert_eq!(
        parse_hotlist(inp).unwrap_err(),
        ParseError::Lexical { offset: off }
    );
}

#[test]
fn test_last_encoding_assignment_wins() {
    let inp = "Options: encoding = utf8, version=2, encoding = utf8, version=9";
    assert_eq!(
        parse_options(inp).unwrap(),
        Options {
            encoding: Encoding::Utf8(ver(9, 0))
        }
    );
}

#[test]
fn test_repeated_field_last_wins() {
    let inp = "#NOTE\n\
               \tID=1\n\
               \tID=2\n\
               \tUNIQUEID=00000000000000000000000000000000\n\
               \tCREATED=0\n";
    assert_eq!(parse_note_entry(inp).unwrap().id, 2);
}

#[test]
fn test_empty_note_body() {
    let inp = "#NOTE\n\
               \tID=1\n\
               \tUNIQUEID=00000000000000000000000000000000\n\
               \tNAME=\n\
               \tCREATED=0\n";
    assert_eq!(
        parse_note_entry(inp).unwrap().contents,
        Some(String::new())
    );
}

#[test]
fn test_note_body_strips_carriage_return() {
    let inp = "#NOTE\r\n\
               \tID=1\r\n\
               \tUNIQUEID=00000000000000000000000000000000\r\n\
               \tNAME=windows line\r\n\
               \tCREATED=0\r\n";
    assert_eq!(
        parse_note_entry(inp).unwrap().contents,
        Some(String::from("windows line"))
    );
}
