use reqcraft::item::{FileOp, Mode, ModeError, ParsedToken, RequestItem, RequestItemError};

fn ready(token: &str) -> RequestItem {
    match RequestItem::from_token(token) {
        Ok(ParsedToken::Ready(item)) => item,
        other => panic!("expected a finished item for {:?}, got {:?}", token, other),
    }
}

#[test]
fn data_operator() {
    let item = ready("name=John");
    assert_eq!(
        item,
        RequestItem::Data { key: "name".to_string(), value: "John".to_string() }
    );
}

#[test]
fn json_operator() {
    let item = ready("age:=30");
    assert_eq!(
        item,
        RequestItem::JsonData { key: "age".to_string(), value: "30".to_string() }
    );
}

#[test]
fn header_operator() {
    // The header name is validated and normalized to lowercase.
    let item = ready("X-Foo:bar");
    assert_eq!(
        item,
        RequestItem::Header { key: "x-foo".to_string(), value: "bar".to_string() }
    );
}

#[test]
fn search_operator() {
    let item = ready("q==hello");
    assert_eq!(
        item,
        RequestItem::SearchParam { key: "q".to_string(), value: "hello".to_string() }
    );
}

#[test]
fn form_file_operator() {
    let item = ready("avatar@./a.png");
    assert_eq!(
        item,
        RequestItem::FormFile { key: "avatar".to_string(), value: "./a.png".to_string() }
    );
}

#[test]
fn escaped_operator_stays_in_key() {
    let item = ready("a\\=b=c");
    assert_eq!(
        item,
        RequestItem::Data { key: "a=b".to_string(), value: "c".to_string() }
    );
}

#[test]
fn no_operator_is_a_parse_error() {
    let r = RequestItem::from_token("keyvalue");
    assert_eq!(r, Err(RequestItemError::ParseError("keyvalue".to_string())));
}

#[test]
fn operator_first_is_a_parse_error() {
    // The key may not be empty, so a leading operator never splits.
    let r = RequestItem::from_token("=value");
    assert_eq!(r, Err(RequestItemError::ParseError("=value".to_string())));
}

#[test]
fn search_wins_over_data_at_same_position() {
    let item = ready("a==@b");
    assert_eq!(
        item,
        RequestItem::SearchParam { key: "a".to_string(), value: "@b".to_string() }
    );
}

#[test]
fn json_value_is_canonicalized() {
    let item = ready("a:= { \"x\" :  1 }");
    assert_eq!(
        item,
        RequestItem::JsonData { key: "a".to_string(), value: "{\"x\":1}".to_string() }
    );
}

#[test]
fn invalid_json_value_is_a_parse_error() {
    let r = RequestItem::from_token("a:=not-json");
    assert_eq!(r, Err(RequestItemError::ParseError("a:=not-json".to_string())));
}

#[test]
fn invalid_header_name_is_a_parse_error() {
    let r = RequestItem::from_token("bad name:x");
    assert_eq!(r, Err(RequestItemError::ParseError("bad name:x".to_string())));
}

#[test]
fn invalid_header_value_is_a_parse_error() {
    let r = RequestItem::from_token("h:bad\u{7f}value");
    assert_eq!(r, Err(RequestItemError::ParseError("h:bad\u{7f}value".to_string())));
}

#[test]
fn file_indirection_is_deferred() {
    let r = RequestItem::from_token("payload:=@./body.json");
    assert_eq!(
        r,
        Ok(ParsedToken::NeedsFile {
            key: "payload".to_string(),
            op: FileOp::Json,
            path: "./body.json".to_string(),
        })
    );
}

#[test]
fn plain_file_indirection_is_deferred() {
    let r = RequestItem::from_token("note=@./note.txt");
    assert_eq!(
        r,
        Ok(ParsedToken::NeedsFile {
            key: "note".to_string(),
            op: FileOp::Plain,
            path: "./note.txt".to_string(),
        })
    );
}

#[test]
fn empty_file_path_is_rejected_before_any_read() {
    let r = RequestItem::from_token("payload:=@");
    assert_eq!(r, Err(RequestItemError::MissingFileInputError(String::new())));
    let r = RequestItem::from_token("note=@");
    assert_eq!(r, Err(RequestItemError::MissingFileInputError(String::new())));
}

#[test]
fn file_contents_parsed_as_json() {
    let r = RequestItem::from_file_text(
        "payload".to_string(),
        FileOp::Json,
        "{\"a\":1}".to_string(),
        "payload:=@./body.json",
    );
    assert_eq!(
        r,
        Ok(RequestItem::JsonData { key: "payload".to_string(), value: "{\"a\":1}".to_string() })
    );
}

#[test]
fn file_contents_taken_verbatim_for_plain_indirection() {
    let r = RequestItem::from_file_text(
        "note".to_string(),
        FileOp::Plain,
        "hello file".to_string(),
        "note=@./note.txt",
    );
    assert_eq!(
        r,
        Ok(RequestItem::Data { key: "note".to_string(), value: "hello file".to_string() })
    );
}

#[test]
fn bad_file_contents_report_the_token() {
    let r = RequestItem::from_file_text(
        "payload".to_string(),
        FileOp::Json,
        "not json at all {{".to_string(),
        "payload:=@./body.json",
    );
    assert_eq!(
        r,
        Err(RequestItemError::ParseError("payload:=@./body.json".to_string()))
    );
}

#[test]
fn mode_names() {
    assert_eq!(Mode::from_str("form"), Ok(Mode::Form));
    assert_eq!(Mode::from_str("json"), Ok(Mode::Json));
    assert_eq!(Mode::from_str("yaml"), Err(ModeError::MissingMode));
}

#[test]
fn mode_defaults_to_json() {
    assert_eq!(Mode::default(), Mode::Json);
}

#[test]
fn mode_flags_resolve() {
    assert_eq!(reqcraft::item::resolve_mode(false, false), Ok(Mode::Json));
    assert_eq!(reqcraft::item::resolve_mode(true, false), Ok(Mode::Form));
    assert_eq!(reqcraft::item::resolve_mode(false, true), Ok(Mode::Json));
    assert_eq!(
        reqcraft::item::resolve_mode(true, true),
        Err(ModeError::ModeConflict)
    );
}
