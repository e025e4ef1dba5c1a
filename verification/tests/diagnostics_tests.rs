use hotlist::ast::{HotlistError, ParseError, SpanInfo};
use hotlist::lexer::Tok;
use hotlist::error::error_context;
use hotlist::parser::{get_line_and_offset, parse_hotlist, parse_options};

#[test]
fn test_get_line_and_offset_first_line() {
    let li = get_line_and_offset("abc\ndef\n", 1);
    assert_eq!(li.line, 1);
    assert_eq!(li.offset, 2);
}

#[test]
fn test_get_line_and_offset_second_line() {
    let li = get_line_and_offset("abc\ndef\n", 5);
    assert_eq!(li.line, 2);
    assert_eq!(li.offset, 2);
}

#[test]
fn test_get_line_and_offset_at_start() {
    let li = get_line_and_offset("abc", 0);
    assert_eq!(li.line, 1);
    assert_eq!(li.offset, 1);
}

#[test]
fn test_error_messages() {
    assert_eq!(
        ParseError::Lexical { offset: 26 }.message(),
        "unknown token starting at offset 26"
    );
    assert_eq!(
        ParseError::UnexpectedEof { offset: 3 }.message(),
        "unexpected end of input at offset 3"
    );
    assert_eq!(
        ParseError::Validation(HotlistError::InvalidUuid(String::from("ABC"))).message(),
        "invalid UUID: ABC"
    );
    assert_eq!(
        ParseError::Validation(HotlistError::RequiredFieldMissing(
            String::from("encoding"),
            SpanInfo {
                error: None,
                entry: (0, 8)
            }
        ))
        .message(),
        "required field missing: encoding"
    );
}

#[test]
fn test_error_chain_walk() {
    let e = ParseError::Validation(HotlistError::InvalidUrl(String::from("http://[")));
    match e.cause() {
        Some(HotlistError::InvalidUrl(l)) => assert_eq!(l, "http://["),
        other => panic!("unexpected cause: {:?}", other),
    }
    assert!(ParseError::Lexical { offset: 0 }.cause().is_none());
}

#[test]
fn test_error_context_for_lexical_error() {
    let inp = "Opera Hotlist version 2.0\n^after";
    let err = parse_hotlist(inp).unwrap_err();
    assert_eq!(err, ParseError::Lexical { offset: 26 });
    let ctx = error_context(inp, &err);
    assert_eq!(ctx.line.line, 2);
    assert_eq!(ctx.line.offset, 1);
    assert_eq!(ctx.excerpt, "^after");
}

#[test]
fn test_error_context_for_missing_encoding() {
    let inp = "Options:";
    let err = parse_options(inp).unwrap_err();
    let ctx = error_context(inp, &err);
    assert_eq!(ctx.line.line, 1);
    assert_eq!(ctx.excerpt, "Options:");
}

#[test]
fn test_token_descriptions() {
    assert_eq!(
        Tok::FolderHeader.describe(),
        "Folder header (\"#FOLDER\")"
    );
    assert_eq!(Tok::Integer("42").describe(), "Integer (\"42\")");
    let long = "x".repeat(90);
    let d = Tok::NoteBody(&long).describe();
    assert!(d.ends_with("\"... [cont])"));
}
