use reqcraft::assemble::{assemble, HeaderField, UriParts};
use reqcraft::item::{Mode, ParsedToken, RequestItem};
use reqcraft::render::{body_with_newline, render_response_preview, request_body_language,
    response_body_language, BodyLang};

fn item(token: &str) -> RequestItem {
    match RequestItem::from_token(token) {
        Ok(ParsedToken::Ready(it)) => it,
        other => panic!("expected a finished item for {:?}, got {:?}", token, other),
    }
}

fn field(name: &str, value: &str) -> HeaderField {
    HeaderField { name: name.to_string(), value: value.to_string() }
}

#[test]
fn request_preview_sorts_headers_and_keeps_duplicates() {
    let items = vec![item("zeta:1"), item("alpha:2"), item("zeta:3")];
    let uri = UriParts {
        scheme: None,
        authority: Some("example.org".to_string()),
        path_and_query: None,
    };
    let r = assemble("GET".to_string(), uri, Mode::Json, &items);
    let preview = r.render_preview();
    assert_eq!(
        preview,
        "GET / HTTP/1.1\n\
         accept: */*\n\
         alpha: 2\n\
         user-agent: reqcraft/0.1.0\n\
         zeta: 1\n\
         zeta: 3\n"
    );
}

#[test]
fn request_preview_shows_path_without_query() {
    let uri = UriParts {
        scheme: Some("http".to_string()),
        authority: Some("example.org".to_string()),
        path_and_query: Some("/things?q=1".to_string()),
    };
    let r = assemble("GET".to_string(), uri, Mode::Json, &Vec::new());
    let preview = r.render_preview();
    assert!(preview.starts_with("GET /things HTTP/1.1\n"));
}

#[test]
fn request_preview_is_idempotent() {
    let items = vec![item("name=John"), item("x-b:2"), item("x-a:1")];
    let uri = UriParts {
        scheme: None,
        authority: Some("example.org".to_string()),
        path_and_query: None,
    };
    let r = assemble("POST".to_string(), uri, Mode::Json, &items);
    let first = r.render_preview();
    let second = r.render_preview();
    assert_eq!(first.as_bytes(), second.as_bytes());
}

#[test]
fn response_preview_shows_status_and_sorted_headers() {
    let headers = vec![field("server", "demo"), field("content-type", "text/plain")];
    let preview = render_response_preview("HTTP/1.1", 200, &headers).unwrap();
    assert_eq!(
        preview,
        "HTTP/1.1 200 OK\n\
         content-type: text/plain\n\
         server: demo\n"
    );
}

#[test]
fn response_preview_needs_a_known_reason_phrase() {
    let headers: Vec<HeaderField> = Vec::new();
    assert!(render_response_preview("HTTP/1.1", 599, &headers).is_none());
    assert!(render_response_preview("HTTP/1.1", 404, &headers).is_some());
}

#[test]
fn request_body_always_previews_as_json() {
    assert_eq!(request_body_language(Mode::Json), BodyLang::Json);
    assert_eq!(request_body_language(Mode::Form), BodyLang::Json);
}

#[test]
fn response_language_follows_content_type() {
    assert_eq!(response_body_language(None), Some(BodyLang::Plain));
    assert_eq!(
        response_body_language(Some("text/html; charset=utf-8")),
        Some(BodyLang::Html)
    );
    assert_eq!(response_body_language(Some("application/json")), Some(BodyLang::Json));
    assert_eq!(
        response_body_language(Some("application/octet-stream")),
        Some(BodyLang::Plain)
    );
    assert_eq!(response_body_language(Some("not a media type")), None);
}

#[test]
fn displayed_body_gets_a_trailing_newline() {
    assert_eq!(body_with_newline("{\"a\":1}"), "{\"a\":1}\n");
    assert_eq!(body_with_newline("done\n"), "done\n");
    assert_eq!(body_with_newline(""), "");
}
